//! The archive builder: given the admitted source files in walk order, it
//! assigns each one the next sequential entry identifier starting at 0,
//! registers its content under the uniform content policy, appends the
//! serialized path list as the reserved index entry, and emits the finished
//! container bytes.  Paths that would desynchronize the index codec are
//! rejected up front instead of silently corrupting the index.

use vstd::prelude::*;

use crate::codec::clone_bytes;
use crate::codec::encode_index;
use crate::codec::index_safe_path;
use crate::codec::is_index_safe_path;
use crate::codec::join_paths;
use crate::codec::lemma_deep_view_bytes;
use crate::codec::lemma_split_of_join;
use crate::codec::split_paths;
use crate::errors::BuildError;
use crate::ids::dec_bytes;
use crate::ids::format_entry_id;
use crate::ids::index_entry_id;
use crate::ids::index_id;
use crate::ids::lemma_dec_bytes_injective;
use crate::ids::lemma_dec_bytes_len;
use crate::ids::lemma_dec_bytes_not_index_id;
use crate::ids::pow10;
use crate::ids::valid_entry_id;
use crate::reader::archive_magic_bytes;
use crate::reader::container_entries;
use crate::reader::last_index_of;
use crate::reader::lemma_last_index_of;
use crate::reader::ArchiveReader;
use crate::vach_api::builder_add;
use crate::vach_api::builder_new;
use crate::vach_api::dump_raw;
use crate::vach_api::keypair_parses;
use crate::vach_api::pending_compression_ok;
use crate::vach_api::pending_entries;
use crate::vach_api::pending_signed;

verus! {

/// The uniform per-entry content policy every file is registered under.
pub struct EntryPolicy {
    /// Brotli quality level; entry contents are always compressed.
    pub compression_level: u32,
    /// Encrypt entry contents.
    pub encrypt: bool,
    /// Sign each entry.
    pub sign: bool,
    /// Content version tag recorded on each entry.
    pub content_version: u8,
}

impl Default for EntryPolicy {
    /// The default policy: compress at brotli quality 9, encrypt, sign, tag
    /// the contents as version 1.
    fn default() -> (r: EntryPolicy)
        ensures
            r.compression_level == 9,
            r.encrypt,
            r.sign,
            r.content_version == 1,
    {
        EntryPolicy { compression_level: 9, encrypt: true, sign: true, content_version: 1 }
    }
}

/// One admitted source file: its slash-normalized path relative to the
/// source root, and its content.
pub struct SourceFile {
    /// The relative path, forward-slash separated.
    pub path: Vec<u8>,
    /// The file's bytes.
    pub content: Vec<u8>,
}

/// The ordered list of source paths, in walk order.
pub open spec fn source_paths(files: Seq<SourceFile>) -> Seq<Seq<u8>> {
    files.map_values(|f: SourceFile| f.path@)
}

/// The entry table a successful build commits to the container: the file at
/// walk position `i` under the decimal identifier of `i`, the joined path
/// list under the reserved index identifier, nothing else, and every entry
/// signed exactly when the policy signs.
pub open spec fn archive_table_of(
    files: Seq<SourceFile>,
    signed: bool,
    m: Map<Seq<u8>, (Seq<u8>, bool)>,
) -> bool {
    &&& forall|i: int| 0 <= i < files.len() ==> m.contains_key(#[trigger] dec_bytes(i as nat))
    &&& forall|i: int|
        0 <= i < files.len() ==> m[#[trigger] dec_bytes(i as nat)] == (files[i].content@, signed)
    &&& m.contains_key(index_id())
    &&& m[index_id()] == (join_paths(source_paths(files)), signed)
    &&& forall|id: Seq<u8>|
        #[trigger] m.contains_key(id) ==> id == index_id() || (exists|i: int|
            0 <= i < files.len() && id == #[trigger] dec_bytes(i as nat))
}

/// A successful build's bytes parse back, under the library magic and the
/// keypair's verifying half, to exactly the committed entry table.
pub open spec fn built_ok(
    files: Seq<SourceFile>,
    signed: bool,
    keypair: Seq<u8>,
    bytes: Seq<u8>,
) -> bool {
    &&& container_entries(bytes, Some(keypair.subrange(32, 64))) matches Some(m)
        && archive_table_of(files, signed, m)
}

/// The inputs on which a build owes a finished container: a keypair the
/// signer accepts, a compression level the compressor accepts, codec-safe
/// paths, a file count the 16-bit entry counter holds, and contents (each
/// file, and the serialized index) under the cipher's plaintext cap.
pub open spec fn buildable(files: Seq<SourceFile>, level: u32, keypair: Seq<u8>) -> bool {
    &&& keypair_parses(keypair)
    &&& 1 <= level <= 11
    &&& files.len() <= 65534
    &&& forall|i: int| 0 <= i < files.len() ==> index_safe_path(#[trigger] files[i].path@)
    &&& forall|i: int| 0 <= i < files.len() ==> (#[trigger] files[i].content@).len() < 0x100000000
    &&& join_paths(source_paths(files)).len() < 0x100000000
}

/// Builds one container from the admitted files, in walk order, under the
/// uniform policy, signed with the 64 keypair bytes.  A path the index codec
/// cannot carry aborts the build before any container work; so does a file
/// count the container's 16-bit entry counter cannot hold.  The container
/// library refusing an entry or the serialization aborts the build
/// afterwards.
pub fn build_archive(files: &Vec<SourceFile>, policy: &EntryPolicy, keypair: &[u8; 64]) -> (r:
    Result<Vec<u8>, BuildError>)
    ensures
        r matches Err(BuildError::UnsafePath(p)) ==> (!index_safe_path(p@) && (exists|i: int|
            0 <= i < files@.len() && files@[i].path@ == p@)),
        (exists|i: int| 0 <= i < files@.len() && !index_safe_path(#[trigger] files@[i].path@))
            ==> r matches Err(BuildError::UnsafePath(_)),
        r matches Ok(bytes) ==> built_ok(files@, policy.sign, keypair@, bytes@),
        buildable(files@, policy.compression_level, keypair@) ==> r is Ok,
{
    let mut v: usize = 0;
    while v < files.len()
        invariant
            v <= files@.len(),
            forall|j: int| 0 <= j < v ==> index_safe_path(#[trigger] files@[j].path@),
        decreases files@.len() - v,
    {
        if !is_index_safe_path(&files[v].path) {
            return Err(BuildError::UnsafePath(clone_bytes(&files[v].path)));
        }
        v += 1;
    }
    if files.len() > 65534 {
        return Err(BuildError::ArchiveFailure);
    }
    let mut b = builder_new(policy.compression_level, policy.encrypt, policy.sign,
        policy.content_version);
    proof {
        assert(pending_entries(b).dom() =~= Set::<Seq<u8>>::empty());
    }
    let mut path_list: Vec<Vec<u8>> = Vec::new();
    let mut i: usize = 0;
    proof {
        lemma_deep_view_bytes(&path_list);
        assert(path_list.deep_view() =~= source_paths(files@).take(0));
    }
    while i < files.len()
        invariant
            i <= files@.len(),
            files@.len() <= 65534,
            pending_entries(b).dom().finite(),
            pending_entries(b).len() == i,
            pending_signed(b) == policy.sign,
            pending_compression_ok(b) == (1 <= policy.compression_level <= 11),
            path_list.deep_view() == source_paths(files@).take(i as int),
            forall|j: int|
                0 <= j < i ==> pending_entries(b).contains_key(#[trigger] dec_bytes(j as nat)),
            forall|j: int|
                0 <= j < i ==> pending_entries(b)[#[trigger] dec_bytes(j as nat)]
                    == files@[j].content@,
            forall|id: Seq<u8>|
                #[trigger] pending_entries(b).contains_key(id) ==> (exists|j: int|
                    0 <= j < i && id == #[trigger] dec_bytes(j as nat)),
        decreases files@.len() - i,
    {
        let id = format_entry_id(i);
        let content = clone_bytes(&files[i].content);
        proof {
            lemma_dec_bytes_not_index_id(i as nat);
            if pending_entries(b).contains_key(dec_bytes(i as nat)) {
                let j = choose|j: int| 0 <= j < i && dec_bytes(i as nat) == #[trigger] dec_bytes(j as nat);
                lemma_dec_bytes_injective(i as nat, j as nat);
                assert(false);
            }
        }
        let ghost pend0 = pending_entries(b);
        let ok = builder_add(&mut b, content, id);
        proof {
            assert(ok);
            assert(pending_entries(b).dom() =~= pend0.dom().insert(dec_bytes(i as nat)));
            assert(pending_entries(b).len() == i + 1);
            assert forall|id2: Seq<u8>| #[trigger] pending_entries(b).contains_key(id2) implies (
            exists|j: int| 0 <= j < i + 1 && id2 == #[trigger] dec_bytes(j as nat)) by {
                if id2 == dec_bytes(i as nat) {
                    let w: int = i as int;
                    assert(0 <= w && w < i + 1 && id2 == dec_bytes(w as nat));
                } else {
                    assert(pend0.contains_key(id2));
                }
            }
        }
        let p = clone_bytes(&files[i].path);
        let ghost pre = path_list.deep_view();
        proof {
            lemma_deep_view_bytes(&path_list);
        }
        path_list.push(p);
        proof {
            lemma_deep_view_bytes(&path_list);
            assert(path_list.deep_view() =~= pre.push(files@[i as int].path@));
            assert(source_paths(files@).take(i + 1 as int) =~= source_paths(files@).take(
                i as int,
            ).push(files@[i as int].path@));
        }
        i += 1;
    }
    proof {
        assert(source_paths(files@).take(files@.len() as int) =~= source_paths(files@));
    }
    let blob = encode_index(&path_list);
    let iid = index_entry_id();
    proof {
        if pending_entries(b).contains_key(index_id()) {
            let j = choose|j: int| 0 <= j < i && index_id() == #[trigger] dec_bytes(j as nat);
            lemma_dec_bytes_not_index_id(j as nat);
            assert(false);
        }
    }
    let ghost pend1 = pending_entries(b);
    let ok2 = builder_add(&mut b, blob, iid);
    proof {
        assert(ok2);
        assert(pending_entries(b).dom() =~= pend1.dom().insert(index_id()));
        assert(pending_entries(b).len() == files@.len() + 1);
        assert forall|id: Seq<u8>| pending_entries(b).contains_key(id) implies valid_entry_id(
            id,
        ) by {
            if id != index_id() {
                let j = choose|j: int| 0 <= j < i && id == #[trigger] dec_bytes(j as nat);
                lemma_dec_bytes_not_index_id(j as nat);
            }
        }
    }
    let magic = archive_magic_bytes();
    let ghost committed = pending_entries(b);
    let ghost signed = pending_signed(b);
    proof {
        if buildable(files@, policy.compression_level, keypair@) {
            assert(pow10(0) == 1);
            assert(pow10(1) == 10);
            assert(pow10(2) == 100);
            assert(pow10(3) == 1000);
            assert(pow10(4) == 10000);
            assert(pow10(5) == 100000);
            assert forall|id: Seq<u8>| #[trigger] committed.contains_key(id) implies id.len()
                < 65535 && committed[id].len() < 0x100000000 by {
                if id == index_id() {
                    assert(committed[id] == join_paths(source_paths(files@)));
                } else {
                    let j = choose|j: int| 0 <= j < i && id == #[trigger] dec_bytes(j as nat);
                    lemma_dec_bytes_len(j as nat, 5);
                    assert(committed[id] == files@[j].content@);
                }
            }
        }
    }
    match dump_raw(&mut b, &magic, keypair) {
        Some(bytes) => {
            proof {
                let m = Map::new(
                    |id: Seq<u8>| committed.contains_key(id),
                    |id: Seq<u8>| (committed[id], signed),
                );
                assert(container_entries(bytes@, Some(keypair@.subrange(32, 64))) == Some(m));
                assert(archive_table_of(files@, policy.sign, m)) by {
                    assert forall|k: int|
                        0 <= k < files@.len() implies m.contains_key(#[trigger] dec_bytes(k as nat))
                        && m[dec_bytes(k as nat)] == (files@[k].content@, policy.sign) by {
                        lemma_dec_bytes_not_index_id(k as nat);
                        assert(committed.contains_key(dec_bytes(k as nat)));
                    }
                    assert(m.contains_key(index_id()));
                    assert(m[index_id()] == (join_paths(source_paths(files@)), policy.sign));
                }
            }
            Ok(bytes)
        },
        None => {
            proof {
                if buildable(files@, policy.compression_level, keypair@) {
                    assert(false);
                }
            }
            Err(BuildError::ArchiveFailure)
        },
    }
}

/// For an archive built from one or more admitted files, the index entry
/// decodes back to exactly the source paths, in walk order, and the entry
/// identifiers are exactly the decimal strings of 0 to N-1 — dense, without
/// gaps or duplicates — beside the one reserved index identifier.
pub proof fn lemma_built_index(
    files: Seq<SourceFile>,
    signed: bool,
    m: Map<Seq<u8>, (Seq<u8>, bool)>,
)
    requires
        files.len() >= 1,
        forall|i: int| 0 <= i < files.len() ==> index_safe_path(#[trigger] files[i].path@),
        archive_table_of(files, signed, m),
    ensures
        split_paths(m[index_id()].0) == source_paths(files),
        forall|i: int, j: int|
            0 <= i < j < files.len() ==> #[trigger] dec_bytes(i as nat) != #[trigger] dec_bytes(
                j as nat,
            ),
        forall|id: Seq<u8>|
            #[trigger] m.contains_key(id) && id != index_id() ==> (exists|i: int|
                0 <= i < files.len() && id == #[trigger] dec_bytes(i as nat)),
{
    let ps = source_paths(files);
    assert(ps.len() == files.len());
    assert forall|k: int| 0 <= k < ps.len() implies index_safe_path(#[trigger] ps[k]) by {
        assert(ps[k] == files[k].path@);
    }
    lemma_split_of_join(ps);
    assert forall|i: int, j: int| 0 <= i < j < files.len() implies #[trigger] dec_bytes(i as nat)
        != #[trigger] dec_bytes(j as nat) by {
        lemma_dec_bytes_injective(i as nat, j as nat);
    }
}

/// Every path admitted during a build is found by a freshly opened reader on
/// the built archive under the matching key, and reads back exactly the
/// original content bytes of that file.
pub proof fn lemma_build_read_round_trip(
    files: Seq<SourceFile>,
    m: Map<Seq<u8>, (Seq<u8>, bool)>,
    rd: ArchiveReader,
)
    requires
        files.len() >= 1,
        forall|i: int| 0 <= i < files.len() ==> index_safe_path(#[trigger] files[i].path@),
        forall|i: int, j: int|
            0 <= i < j < files.len() ==> files[i].path@ != files[j].path@,
        archive_table_of(files, true, m),
        rd.entries() == m,
        rd.path_list() == split_paths(m[index_id()].0),
        rd.is_verified(),
    ensures
        forall|i: int| 0 <= i < files.len() ==> rd.spec_has_file(#[trigger] files[i].path@),
        forall|i: int|
            0 <= i < files.len() ==> (rd.spec_read(#[trigger] files[i].path@) matches Ok(d) && d
                == files[i].content@),
{
    lemma_built_index(files, true, m);
    let s = rd.path_list();
    assert(s == source_paths(files));
    assert(s.len() == files.len());
    assert forall|i: int| 0 <= i < files.len() implies rd.spec_has_file(
        #[trigger] files[i].path@,
    ) by {
        assert(s[i] == files[i].path@);
        assert(s.contains(files[i].path@));
    }
    assert forall|i: int| 0 <= i < files.len() implies (rd.spec_read(#[trigger] files[i].path@)
        matches Ok(d) && d == files[i].content@) by {
        let p = files[i].path@;
        assert(s[i] == p);
        lemma_last_index_of(s, p);
        let r = last_index_of(s, p);
        assert(s.contains(p)) by {
            assert(s[i] == p);
        }
        if r < i {
            assert(s[i] != p);
            assert(false);
        }
        if r > i {
            assert(s[r] == p);
            assert(s[r] == files[r].path@);
            assert(files[i].path@ != files[r].path@);
            assert(false);
        }
        assert(r == i);
        let id = dec_bytes(i as nat);
        assert(m.contains_key(id));
        assert(m[id] == (files[i].content@, true));
    }
}

} // verus!
