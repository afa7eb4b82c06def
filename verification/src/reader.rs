//! The path-addressed reader: a virtual filesystem over one opened container.
//! It holds the opened archive and the decoded path list; the position of a
//! path in that list is its entry identifier.  Construction eagerly fetches
//! and decodes the index entry; every later operation is read-only.
//!
//! When a verifying key is configured, nothing unverified is ever served: an
//! entry whose signature did not check out is an integrity failure, not data.
//! Directory listings are materialized, restartable, and come in stable index
//! order.

use vstd::prelude::*;

use crate::codec::clone_bytes;
use crate::codec::lemma_deep_view_bytes;
use crate::codec::split_paths;
use crate::errors::OpenError;
use crate::errors::ReadError;
use crate::errors::ReadFailure;
use crate::ids::dec_bytes;
use crate::ids::format_entry_id;
use crate::ids::index_entry_id;
use crate::ids::index_id;
use crate::ids::lemma_dec_bytes_not_index_id;
use crate::paths::dir_extends;
use crate::paths::get_meta_path;
use crate::paths::in_dir_listing;
use crate::paths::in_listing;
use crate::paths::listing_pred;
use crate::paths::meta_path_of;
use crate::paths::spec_has_extension;
use crate::vach_api::archive_entries;
use crate::vach_api::fetch_raw;
use crate::vach_api::key_view;
use crate::vach_api::open_archive_raw;
use crate::vach_api::parsed_entries;

verus! {

/// The container's magic token, distinct from the underlying format's
/// default: `BVA42`.
pub open spec fn archive_magic() -> Seq<u8> {
    seq![66u8, 86u8, 65u8, 52u8, 50u8]
}

/// Builds the magic token.
pub fn archive_magic_bytes() -> (r: [u8; 5])
    ensures
        r@ == archive_magic(),
{
    let r: [u8; 5] = [66, 86, 65, 52, 50];
    proof {
        assert(r@ =~= archive_magic());
    }
    r
}

/// What `data` parses to under this library's magic token and `key`.
pub open spec fn container_entries(data: Seq<u8>, key: Option<Seq<u8>>) -> Option<
    Map<Seq<u8>, (Seq<u8>, bool)>,
> {
    parsed_entries(archive_magic(), data, key)
}

/// The position of the last occurrence of `p` in `s`, or -1.  When a path was
/// indexed twice, the later insertion wins the lookup.
pub open spec fn last_index_of(s: Seq<Seq<u8>>, p: Seq<u8>) -> int
    decreases s.len(),
{
    if s.len() == 0 {
        -1
    } else if s.last() == p {
        s.len() - 1
    } else {
        last_index_of(s.drop_last(), p)
    }
}

/// What `last_index_of` returns: -1 exactly when `p` is absent, otherwise
/// the greatest position holding `p`.
pub proof fn lemma_last_index_of(s: Seq<Seq<u8>>, p: Seq<u8>)
    ensures
        -1 <= last_index_of(s, p) < s.len(),
        last_index_of(s, p) == -1 ==> !s.contains(p),
        last_index_of(s, p) >= 0 ==> s[last_index_of(s, p)] == p,
        forall|j: int| last_index_of(s, p) < j < s.len() ==> s[j] != p,
    decreases s.len(),
{
    if s.len() == 0 {
    } else if s.last() == p {
    } else {
        lemma_last_index_of(s.drop_last(), p);
        let t = s.drop_last();
        let r = last_index_of(s, p);
        assert(forall|j: int| 0 <= j < t.len() ==> t[j] == s[j]);
        if r == -1 {
            if s.contains(p) {
                let j = choose|j: int| 0 <= j < s.len() && s[j] == p;
                if j < s.len() - 1 {
                    assert(t[j] == p);
                    assert(t.contains(p));
                }
                assert(false);
            }
        }
    }
}

/// Where a read request is answered: by the container, by the configured
/// fallback, or nowhere.
#[derive(Debug, Clone, Copy, PartialEq, Eq)]
pub enum ReadRoute {
    /// The path is indexed: serve it from the container.
    Primary,
    /// Not indexed, but a fallback is configured: delegate the whole call to
    /// it and return its result verbatim.
    Fallback,
    /// Not indexed and no fallback: the read fails, naming the path.
    Missing,
}

/// A read-only, path-addressed view of one opened container.
pub struct ArchiveReader {
    archive: vach::archive::Archive<std::io::Cursor<Vec<u8>>>,
    paths: Vec<Vec<u8>>,
    verified: bool,
}

impl ArchiveReader {
    /// The entry table of the opened container.
    pub closed spec fn entries(self) -> Map<Seq<u8>, (Seq<u8>, bool)> {
        archive_entries(self.archive)
    }

    /// The decoded index: the ordered list of indexed paths.  A path's
    /// position is the value of its entry identifier.
    pub closed spec fn path_list(self) -> Seq<Seq<u8>> {
        self.paths.deep_view()
    }

    /// Whether a verifying key was configured at open.
    pub closed spec fn is_verified(self) -> bool {
        self.verified
    }

    /// The path is a key of the index.
    pub open spec fn spec_has_file(self, p: Seq<u8>) -> bool {
        self.path_list().contains(p)
    }

    /// `p` is a directory: at least one indexed path strictly extends `p`
    /// with a separator.  An indexed file path itself is not a directory, nor
    /// is a mere partial prefix of a component.
    pub open spec fn spec_is_directory(self, p: Seq<u8>) -> bool {
        exists|k: int|
            0 <= k < self.path_list().len() && #[trigger] dir_extends(self.path_list()[k], p)
    }

    /// What reading `p` yields: the entry bytes at the path's identifier, a
    /// lookup miss for an unindexed path, or an integrity failure when the
    /// indexed entry is missing, unreadable, or unverified under the
    /// configured key.
    pub open spec fn spec_read(self, p: Seq<u8>) -> Result<Seq<u8>, ReadFailure> {
        if !self.spec_has_file(p) {
            Err(ReadFailure::NotFound)
        } else {
            let id = dec_bytes(last_index_of(self.path_list(), p) as nat);
            if !self.entries().contains_key(id) {
                Err(ReadFailure::Integrity)
            } else if self.is_verified() && !self.entries()[id].1 {
                Err(ReadFailure::Integrity)
            } else {
                Ok(self.entries()[id].0)
            }
        }
    }

    /// Opens a container from an in-memory buffer under an optional verifying
    /// key, and eagerly fetches and decodes the index entry.  There is no
    /// reader with a partially loaded index: any failure refuses the whole
    /// construction.  With a key configured, an index entry whose signature
    /// did not verify is refused too.
    pub fn open(data: Vec<u8>, key: Option<&[u8; 32]>) -> (r: Result<ArchiveReader, OpenError>)
        ensures
            (r matches Err(OpenError::BadContainer)) <==> container_entries(data@, key_view(key)) is None,
            (r matches Err(OpenError::MissingIndex)) <==> (container_entries(data@, key_view(key)) matches Some(m)
                && !m.contains_key(index_id())),
            (r matches Err(OpenError::UnverifiedIndex)) <==> (container_entries(data@, key_view(key)) matches Some(m)
                && m.contains_key(index_id()) && key is Some && !m[index_id()].1),
            r matches Ok(rd) ==> (container_entries(data@, key_view(key)) matches Some(m)
                && rd.entries() == m && m.contains_key(index_id()) && rd.path_list() == split_paths(
                m[index_id()].0,
            ) && rd.is_verified() == key is Some),
    {
        let verified = key.is_some();
        let magic = archive_magic_bytes();
        let archive = match open_archive_raw(&magic, data, key) {
            Some(a) => a,
            None => {
                return Err(OpenError::BadContainer);
            },
        };
        let iid = index_entry_id();
        let fetched = fetch_raw(&archive, &iid);
        let (blob, auth) = match fetched {
            Some(p) => p,
            None => {
                return Err(OpenError::MissingIndex);
            },
        };
        if verified && !auth {
            return Err(OpenError::UnverifiedIndex);
        }
        let paths = crate::codec::decode_index(&blob);
        Ok(ArchiveReader { archive, paths, verified })
    }

    /// The position of `path` in the index, latest occurrence first.
    fn find_slot(&self, path: &Vec<u8>) -> (r: Option<usize>)
        ensures
            match r {
                Some(i) => i < self.path_list().len() && last_index_of(self.path_list(), path@)
                    == i as int,
                None => !self.spec_has_file(path@),
            },
    {
        let ghost s = self.path_list();
        proof {
            lemma_deep_view_bytes(&self.paths);
            lemma_last_index_of(s, path@);
        }
        let mut i: usize = self.paths.len();
        while i > 0
            invariant
                i <= s.len(),
                s == self.path_list(),
                s.len() == self.paths@.len(),
                forall|k: int| 0 <= k < s.len() ==> s[k] == self.paths@[k]@,
                forall|j: int| i <= j < s.len() ==> s[j] != path@,
            decreases i,
        {
            i -= 1;
            if crate::codec::bytes_eq(&self.paths[i], path) {
                proof {
                    assert(s[i as int] == path@);
                    lemma_last_index_of(s, path@);
                    let r = last_index_of(s, path@);
                    if r < i as int {
                        assert(s[i as int] != path@);
                        assert(false);
                    }
                    if r > i as int {
                        assert(s[r] != path@);
                        assert(s[r] == path@);
                        assert(false);
                    }
                }
                return Some(i);
            }
        }
        proof {
            if s.contains(path@) {
                let j = choose|j: int| 0 <= j < s.len() && s[j] == path@;
                assert(s[j] != path@);
                assert(false);
            }
        }
        None
    }

    /// Whether `path` is a key of the index.
    pub fn has_file(&self, path: &Vec<u8>) -> (r: bool)
        ensures
            r == self.spec_has_file(path@),
    {
        match self.find_slot(path) {
            Some(i) => {
                proof {
                    lemma_last_index_of(self.path_list(), path@);
                    assert(self.path_list()[i as int] == path@);
                    assert(self.spec_has_file(path@));
                }
                true
            },
            None => false,
        }
    }

    /// The content of the entry at index position `i`, with its verification
    /// flag, if the container can serve it.
    pub fn fetch_slot(&self, i: usize) -> (r: Option<(Vec<u8>, bool)>)
        ensures
            r is Some <==> self.entries().contains_key(dec_bytes(i as nat)),
            r matches Some(p) ==> self.entries()[dec_bytes(i as nat)] == (p.0@, p.1),
    {
        let id = format_entry_id(i);
        proof {
            lemma_dec_bytes_not_index_id(i as nat);
        }
        fetch_raw(&self.archive, &id)
    }

    /// Reads the content stored for `path`.  A path outside the index is a
    /// recoverable miss naming that path; an indexed path whose entry cannot
    /// be served and verified is an integrity failure.
    pub fn read(&self, path: &Vec<u8>) -> (r: Result<Vec<u8>, ReadError>)
        ensures
            r is Ok <==> self.spec_read(path@) is Ok,
            r matches Ok(v) ==> (self.spec_read(path@) matches Ok(d) && v@ == d),
            r matches Err(ReadError::NotFound(q)) ==> (q@ == path@ && self.spec_read(path@)
                matches Err(ReadFailure::NotFound)),
            r matches Err(ReadError::Integrity) ==> self.spec_read(path@) matches Err(
                ReadFailure::Integrity,
            ),
    {
        match self.find_slot(path) {
            None => Err(ReadError::NotFound(clone_bytes(path))),
            Some(i) => {
                proof {
                    lemma_last_index_of(self.path_list(), path@);
                    assert(self.path_list()[i as int] == path@);
                    assert(self.spec_has_file(path@));
                }
                match self.fetch_slot(i) {
                    None => Err(ReadError::Integrity),
                    Some((data, auth)) => {
                        if self.verified && !auth {
                            Err(ReadError::Integrity)
                        } else {
                            Ok(data)
                        }
                    },
                }
            },
        }
    }

    /// Reads the companion metadata of `path`: the read of its metadata path,
    /// which also names that derived path on a miss.  Undefined for a path
    /// without an extension.
    pub fn read_meta(&self, path: &Vec<u8>) -> (r: Result<Vec<u8>, ReadError>)
        requires
            spec_has_extension(path@),
        ensures
            r is Ok <==> self.spec_read(meta_path_of(path@)) is Ok,
            r matches Ok(v) ==> (self.spec_read(meta_path_of(path@)) matches Ok(d) && v@ == d),
            r matches Err(ReadError::NotFound(q)) ==> (q@ == meta_path_of(path@) && self.spec_read(
                meta_path_of(path@),
            ) matches Err(ReadFailure::NotFound)),
            r matches Err(ReadError::Integrity) ==> self.spec_read(meta_path_of(path@)) matches Err(
                ReadFailure::Integrity,
            ),
    {
        let meta = get_meta_path(path);
        self.read(&meta)
    }

    /// Whether `path` is a directory of the index.
    pub fn is_directory(&self, path: &Vec<u8>) -> (r: bool)
        ensures
            r == self.spec_is_directory(path@),
    {
        proof {
            lemma_deep_view_bytes(&self.paths);
        }
        let ghost s = self.path_list();
        let mut k: usize = 0;
        while k < self.paths.len()
            invariant
                k <= s.len(),
                s == self.path_list(),
                s.len() == self.paths@.len(),
                forall|j: int| 0 <= j < s.len() ==> s[j] == self.paths@[j]@,
                forall|j: int| 0 <= j < k ==> !(#[trigger] dir_extends(s[j], path@)),
            decreases s.len() - k,
        {
            if crate::paths::extends_dir(&self.paths[k], path) {
                proof {
                    assert(dir_extends(s[k as int], path@));
                }
                return true;
            }
            k += 1;
        }
        false
    }

    /// Lists the directory `path`: every indexed path equal to it or below
    /// it, materialized in stable index order, restartable and reusable.
    /// Fails, naming the path, when `path` is not a directory.
    pub fn read_directory(&self, path: &Vec<u8>) -> (r: Result<Vec<Vec<u8>>, ReadError>)
        ensures
            r is Ok <==> self.spec_is_directory(path@),
            r matches Ok(v) ==> v.deep_view() == self.path_list().filter(listing_pred(path@)),
            r matches Err(e) ==> (e matches ReadError::NotFound(q) && q@ == path@
                && !self.spec_is_directory(path@)),
    {
        if !self.is_directory(path) {
            return Err(ReadError::NotFound(clone_bytes(path)));
        }
        proof {
            lemma_deep_view_bytes(&self.paths);
        }
        let ghost s = self.path_list();
        let ghost pred = listing_pred(path@);
        let mut out: Vec<Vec<u8>> = Vec::new();
        let mut k: usize = 0;
        proof {
            reveal(Seq::filter);
            assert(s.take(0).len() == 0);
            assert(out.deep_view() =~= s.take(0).filter(pred));
        }
        while k < self.paths.len()
            invariant
                k <= s.len(),
                s == self.path_list(),
                pred == listing_pred(path@),
                s.len() == self.paths@.len(),
                forall|j: int| 0 <= j < s.len() ==> s[j] == self.paths@[j]@,
                out.deep_view() == s.take(k as int).filter(pred),
            decreases s.len() - k,
        {
            let q = &self.paths[k];
            let ghost pre = out.deep_view();
            proof {
                lemma_deep_view_bytes(&out);
            }
            if in_dir_listing(q, path) {
                out.push(clone_bytes(q));
            }
            proof {
                lemma_deep_view_bytes(&out);
                let t1 = s.take(k + 1 as int);
                assert(t1.drop_last() =~= s.take(k as int));
                assert(t1.last() == s[k as int]);
                reveal(Seq::filter);
                assert(t1.filter(pred) == if pred(s[k as int]) {
                    s.take(k as int).filter(pred).push(s[k as int])
                } else {
                    s.take(k as int).filter(pred)
                });
                if in_listing(s[k as int], path@) {
                    assert(out.deep_view() =~= pre.push(s[k as int]));
                } else {
                    assert(out.deep_view() =~= pre);
                }
            }
            k += 1;
        }
        proof {
            assert(s.take(s.len() as int) =~= s);
        }
        Ok(out)
    }

    /// Reads `path`, falling back on a secondary source's already-computed
    /// answer when the index does not know the path: the fallback's result
    /// is returned verbatim.  With no fallback, the miss names the path.
    pub fn read_with_fallback(
        &self,
        path: &Vec<u8>,
        fallback_result: Option<Result<Vec<u8>, ReadError>>,
    ) -> (r: Result<Vec<u8>, ReadError>)
        ensures
            self.spec_has_file(path@) ==> (r is Ok <==> self.spec_read(path@) is Ok),
            self.spec_has_file(path@) ==> (r matches Ok(v) ==> (self.spec_read(path@) matches Ok(d)
                && v@ == d)),
            (self.spec_has_file(path@) && self.spec_read(path@) matches Err(
                ReadFailure::Integrity,
            )) ==> r matches Err(ReadError::Integrity),
            (!self.spec_has_file(path@) && fallback_result is Some) ==> r
                == fallback_result->Some_0,
            (!self.spec_has_file(path@) && fallback_result is None) ==> (r matches Err(
                ReadError::NotFound(q),
            ) && q@ == path@),
    {
        if self.has_file(path) {
            self.read(path)
        } else {
            match fallback_result {
                Some(result) => result,
                None => Err(ReadError::NotFound(clone_bytes(path))),
            }
        }
    }

    /// Where a read of `path` is answered: the container when the path is
    /// indexed, else the configured fallback, else nowhere.
    pub fn route_read(&self, path: &Vec<u8>, fallback_present: bool) -> (r: ReadRoute)
        ensures
            (r == ReadRoute::Primary) <==> self.spec_has_file(path@),
            (r == ReadRoute::Fallback) <==> (!self.spec_has_file(path@) && fallback_present),
            (r == ReadRoute::Missing) <==> (!self.spec_has_file(path@) && !fallback_present),
    {
        if self.has_file(path) {
            ReadRoute::Primary
        } else if fallback_present {
            ReadRoute::Fallback
        } else {
            ReadRoute::Missing
        }
    }

    /// Where a metadata read of `path` is answered, by the presence of the
    /// companion metadata path in the index.
    pub fn route_meta(&self, path: &Vec<u8>, fallback_present: bool) -> (r: ReadRoute)
        requires
            spec_has_extension(path@),
        ensures
            (r == ReadRoute::Primary) <==> self.spec_has_file(meta_path_of(path@)),
            (r == ReadRoute::Fallback) <==> (!self.spec_has_file(meta_path_of(path@))
                && fallback_present),
            (r == ReadRoute::Missing) <==> (!self.spec_has_file(meta_path_of(path@))
                && !fallback_present),
    {
        let meta = get_meta_path(path);
        self.route_read(&meta, fallback_present)
    }

    /// How many paths the index holds.
    pub fn path_count(&self) -> (r: usize)
        ensures
            r == self.path_list().len(),
    {
        proof {
            lemma_deep_view_bytes(&self.paths);
        }
        self.paths.len()
    }

    /// The indexed path at position `i`.
    pub fn path_at(&self, i: usize) -> (r: Vec<u8>)
        requires
            i < self.path_list().len(),
        ensures
            r@ == self.path_list()[i as int],
    {
        proof {
            lemma_deep_view_bytes(&self.paths);
        }
        clone_bytes(&self.paths[i])
    }
}

/// A path outside the index always reads as a miss; with a fallback present
/// the route delegates instead, and the fallback's answer is returned
/// verbatim.
pub proof fn lemma_read_miss(rd: ArchiveReader, p: Seq<u8>)
    requires
        !rd.spec_has_file(p),
    ensures
        rd.spec_read(p) matches Err(ReadFailure::NotFound),
{
}

} // verus!
