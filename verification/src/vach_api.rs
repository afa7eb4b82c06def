//! The trusted boundary to the `vach` container library.  Everything below is
//! an `external_body` wrapper or a type declaration whose contract Verus
//! believes; each doc comment names the `vach` item relied on.
//!
//! The model: opening a byte buffer under a magic token and an optional
//! verifying key yields, deterministically, either nothing (the container is
//! refused) or a table from entry identifier (the UTF-8 bytes of the id
//! string) to the entry's decompressed, decrypted content together with a
//! flag saying whether its signature was checked and valid under that key.
//! `parsed_entries` names that table; `archive_entries` names the table held
//! by an opened archive value.

use vstd::prelude::*;

use crate::ids::valid_entry_id;

verus! {

#[verifier::external_type_specification]
#[verifier::external_body]
#[verifier::reject_recursive_types(T)]
pub struct ExCursor<T>(std::io::Cursor<T>);

#[verifier::external_type_specification]
#[verifier::external_body]
#[verifier::reject_recursive_types(T)]
pub struct ExArchive<T>(vach::archive::Archive<T>);

#[verifier::external_type_specification]
#[verifier::external_body]
pub struct ExBuilder<'a>(vach::builder::Builder<'a>);

/// What the byte buffer `data` parses to under the 5-byte token `magic` and
/// verifying-key bytes `key`: `None` when `vach` refuses the container (bad
/// magic, bad version, truncated or unparsable registry, or an unparsable
/// key), otherwise the table of fetchable entries.  An entry whose content
/// cannot be served under `key` (undecryptable, undecompressable) is absent
/// from the table; a present entry maps to its content bytes and to whether a
/// signature was present and verified under `key`.
pub uninterp spec fn parsed_entries(magic: Seq<u8>, data: Seq<u8>, key: Option<Seq<u8>>) -> Option<
    Map<Seq<u8>, (Seq<u8>, bool)>,
>;

/// The entry table of an opened archive, as `parsed_entries` describes it.
pub uninterp spec fn archive_entries(a: vach::archive::Archive<std::io::Cursor<Vec<u8>>>) -> Map<
    Seq<u8>,
    (Seq<u8>, bool),
>;

/// The entries queued in a builder, by identifier.
pub uninterp spec fn pending_entries(b: vach::builder::Builder<'static>) -> Map<Seq<u8>, Seq<u8>>;

/// Whether the builder's template asks for each queued entry to be signed.
pub uninterp spec fn pending_signed(b: vach::builder::Builder<'static>) -> bool;

/// Whether the builder's template carries a compression setup the compressor
/// accepts for every input: a brotli quality inside 1 to 11.
pub uninterp spec fn pending_compression_ok(b: vach::builder::Builder<'static>) -> bool;

/// Whether the 64 bytes parse as a consistent ed25519 signing keypair,
/// secret half then matching public half: what
/// `ed25519_dalek::SigningKey::from_keypair_bytes` accepts, a deterministic
/// function of the bytes alone.
pub uninterp spec fn keypair_parses(k: Seq<u8>) -> bool;

/// An empty entry queue.
pub open spec fn no_entries() -> Map<Seq<u8>, Seq<u8>> {
    Map::empty()
}

/// The verifying-key bytes an open was configured with.
pub open spec fn key_view(key: Option<&[u8; 32]>) -> Option<Seq<u8>> {
    match key {
        Some(k) => Some(k@),
        None => None,
    }
}

/// Relies on `vach::archive::Archive::with_config` over an in-memory cursor,
/// with `ArchiveConfig::magic` and, when a key is given,
/// `ed25519_dalek::VerifyingKey::from_bytes` and `ArchiveConfig::key`.
/// Opening validates the magic token and format version and parses the entry
/// registry; it fails exactly when the bytes do not parse under this
/// configuration.  Unlike a silently dropped bad key, an unparsable key fails
/// the open here.
#[verifier::external_body]
pub(crate) fn open_archive_raw(magic: &[u8; 5], data: Vec<u8>, key: Option<&[u8; 32]>) -> (r: Option<vach::archive::Archive<std::io::Cursor<Vec<u8>>>>)
    ensures
        r is Some <==> parsed_entries(magic@, data@, key_view(key)) is Some,
        r matches Some(a) ==> parsed_entries(magic@, data@, key_view(key)) == Some(
            archive_entries(a),
        ),
{
    let mut config = vach::archive::ArchiveConfig::default().magic(*magic);
    if let Some(kb) = key {
        match vach::prelude::VerifyingKey::from_bytes(kb) {
            Ok(k) => {
                config = config.key(k);
            },
            Err(_) => {
                return None;
            },
        }
    }
    vach::archive::Archive::with_config(std::io::Cursor::new(data), &config).ok()
}

/// Relies on `vach::archive::Archive::fetch`: looks the id up in the
/// registry, reads, decrypts and decompresses the entry's bytes, and checks
/// its signature against the configured key.  Succeeds exactly for the
/// identifiers in the entry table; the flag reports whether a signature was
/// present and verified.  The admitted identifiers are valid UTF-8, so the
/// conversion to a string id never fails.
#[verifier::external_body]
pub(crate) fn fetch_raw(a: &vach::archive::Archive<std::io::Cursor<Vec<u8>>>, id: &Vec<u8>) -> (r: Option<(Vec<u8>, bool)>)
    requires
        valid_entry_id(id@),
    ensures
        r is Some <==> archive_entries(*a).contains_key(id@),
        r matches Some(p) ==> archive_entries(*a)[id@] == (p.0@, p.1),
{
    let s = std::str::from_utf8(id).ok()?;
    let res = a.fetch(s).ok()?;
    Some((res.data.into_vec(), res.authenticated))
}

/// Relies on `vach::builder::Builder::new` and `Builder::template`, with a
/// `vach::builder::Leaf` template built from plain policy values: compressed
/// always (`CompressMode::Always`) with `CompressionAlgorithm::Brotli` at
/// `level`, encrypted and signed as asked, tagged `version`.  The queue
/// starts empty.
#[verifier::external_body]
pub(crate) fn builder_new(level: u32, encrypt: bool, sign: bool, version: u8) -> (r: vach::builder::Builder<'static>)
    ensures
        pending_entries(r) == no_entries(),
        pending_signed(r) == sign,
        pending_compression_ok(r) == (1 <= level <= 11),
{
    let template = vach::builder::Leaf::default()
        .compress(vach::builder::CompressMode::Always)
        .compression_algo(vach::builder::CompressionAlgorithm::Brotli(level))
        .encrypt(encrypt)
        .sign(sign)
        .version(version);
    vach::builder::Builder::new().template(template)
}

/// Relies on `vach::builder::Builder::add`: queues `data` under `id` with the
/// builder's template; refused exactly when an entry with the same id is
/// already queued.  The admitted identifiers are valid UTF-8, so the
/// conversion to a string id never fails.
#[verifier::external_body]
pub(crate) fn builder_add(
    b: &mut vach::builder::Builder<'static>,
    data: Vec<u8>,
    id: Vec<u8>,
) -> (r: bool)
    requires
        valid_entry_id(id@),
    ensures
        r == !pending_entries(*old(b)).contains_key(id@),
        r ==> pending_entries(*final(b)) == pending_entries(*old(b)).insert(id@, data@),
        !r ==> pending_entries(*final(b)) == pending_entries(*old(b)),
        pending_signed(*final(b)) == pending_signed(*old(b)),
        pending_compression_ok(*final(b)) == pending_compression_ok(*old(b)),
{
    match String::from_utf8(id) {
        Ok(s) => b.add(std::io::Cursor::new(data), s).is_ok(),
        Err(_) => false,
    }
}

/// Relies on `vach::builder::Builder::dump` into an in-memory cursor, with a
/// `vach::builder::BuilderConfig` carrying `magic` and the signing key that
/// `ed25519_dalek::SigningKey::from_keypair_bytes` reads from the 64
/// keypair bytes (secret half then public half, so bytes 32..64 are the
/// verifying key).  On success the written bytes parse back, under the same
/// magic and that verifying key, to exactly the queued entries, each marked
/// verified precisely when the template signs.  `None` covers an
/// inconsistent keypair or any serialization failure; with a parsing
/// keypair, an accepted compression setup, identifiers under the 16-bit
/// length cap and contents under four gibibytes each (compression and the
/// cipher's own plaintext cap then cannot refuse), serialization into the
/// in-memory cursor cannot fail and success is owed.  The entry count is
/// serialized as a 16-bit field, so only a queue that fits it is admitted.
/// The queued handles are consumed: nothing is promised of the builder
/// afterwards.
#[verifier::external_body]
pub(crate) fn dump_raw(
    b: &mut vach::builder::Builder<'static>,
    magic: &[u8; 5],
    keypair: &[u8; 64],
) -> (r: Option<Vec<u8>>)
    requires
        pending_entries(*old(b)).dom().finite(),
        pending_entries(*old(b)).len() <= 65535,
        forall|id: Seq<u8>|
            pending_entries(*old(b)).contains_key(id) ==> #[trigger] valid_entry_id(id),
    ensures
        r matches Some(bytes) ==> parsed_entries(
            magic@,
            bytes@,
            Some(keypair@.subrange(32, 64)),
        ) == Some(
            Map::new(
                |id: Seq<u8>| pending_entries(*old(b)).contains_key(id),
                |id: Seq<u8>| (pending_entries(*old(b))[id], pending_signed(*old(b))),
            ),
        ),
        (keypair_parses(keypair@) && pending_compression_ok(*old(b)) && (forall|id: Seq<u8>|
            #[trigger] pending_entries(*old(b)).contains_key(id) ==> id.len() < 65535
                && pending_entries(*old(b))[id].len() < 0x100000000)) ==> r is Some,
        !keypair_parses(keypair@) ==> r is None,
{
    let key = match vach::prelude::SigningKey::from_keypair_bytes(keypair) {
        Ok(k) => k,
        Err(_) => return None,
    };
    let config = vach::builder::BuilderConfig::default().magic(*magic).keypair(key);
    let mut cursor = std::io::Cursor::new(Vec::new());
    match b.dump(&mut cursor, &config) {
        Ok(_) => Some(cursor.into_inner()),
        Err(_) => None,
    }
}

} // verus!
