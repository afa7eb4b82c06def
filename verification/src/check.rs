//! The archive consistency check: open the container under its public
//! verifying key, decode the index, and fetch every referenced entry to
//! confirm authenticity and presence.  A read-only diagnostic pass: it
//! reports each indexed path with its decompressed byte length, and aborts
//! on the first identifier that cannot be fetched and verified.

use vstd::prelude::*;

use crate::errors::CheckError;
use crate::ids::dec_bytes;
use crate::ids::index_id;
use crate::reader::container_entries;
use crate::reader::ArchiveReader;
use crate::codec::clone_bytes;
use crate::codec::split_paths;

verus! {

/// One line of the check's report: an indexed path and the byte length of
/// its decompressed entry.
#[derive(Debug)]
pub struct EntryInfo {
    /// The indexed path.
    pub path: Vec<u8>,
    /// The entry's decompressed length in bytes.
    pub size: usize,
}

/// The entry table `data` parses to under `key`; meaningful when it opens.
pub open spec fn check_table(data: Seq<u8>, key: Seq<u8>) -> Map<Seq<u8>, (Seq<u8>, bool)> {
    container_entries(data, Some(key))->Some_0
}

/// The container opens for checking: it parses under `key` and its index
/// entry is present and verified.
pub open spec fn check_opens(data: Seq<u8>, key: Seq<u8>) -> bool {
    &&& container_entries(data, Some(key)) is Some
    &&& check_table(data, key).contains_key(index_id())
    &&& check_table(data, key)[index_id()].1
}

/// The paths the index entry decodes to.
pub open spec fn checked_paths(data: Seq<u8>, key: Seq<u8>) -> Seq<Seq<u8>> {
    split_paths(check_table(data, key)[index_id()].0)
}

/// The entry referenced by index position `i` is present and verified.
pub open spec fn entry_good(data: Seq<u8>, key: Seq<u8>, i: int) -> bool {
    &&& check_table(data, key).contains_key(dec_bytes(i as nat))
    &&& check_table(data, key)[dec_bytes(i as nat)].1
}

/// Checks a container under its public verifying key: every indexed path
/// must resolve to a present, verified entry.  Succeeds with the path/length
/// report exactly when the container opens and every referenced identifier
/// is good; otherwise names the first bad position, or the open failure.
pub fn check_archive(data: &Vec<u8>, key: &[u8; 32]) -> (r: Result<Vec<EntryInfo>, CheckError>)
    ensures
        r is Ok <==> (check_opens(data@, key@) && (forall|i: int|
            0 <= i < checked_paths(data@, key@).len() ==> entry_good(data@, key@, i))),
        r matches Ok(v) ==> (v@.len() == checked_paths(data@, key@).len() && (forall|i: int|
            0 <= i < v@.len() ==> v@[i].path@ == checked_paths(data@, key@)[i] && v@[i].size
                == check_table(data@, key@)[dec_bytes(i as nat)].0.len())),
        r matches Err(CheckError::Open(_)) ==> !check_opens(data@, key@),
        r matches Err(CheckError::BadEntry(i)) ==> (check_opens(data@, key@) && 0 <= i
            < checked_paths(data@, key@).len() && !entry_good(data@, key@, i as int) && (forall|
            j: int| 0 <= j < i ==> entry_good(data@, key@, j))),
{
    let ghost gd = data@;
    let owned = clone_bytes(data);
    let reader = match ArchiveReader::open(owned, Some(key)) {
        Ok(rd) => rd,
        Err(e) => {
            proof {
                if check_opens(gd, key@) {
                    assert(false);
                }
            }
            return Err(CheckError::Open(e));
        },
    };
    proof {
        assert(check_opens(gd, key@));
        assert(reader.entries() == check_table(gd, key@));
        assert(reader.path_list() == checked_paths(gd, key@));
        assert(reader.is_verified());
    }
    let n = reader.path_count();
    let mut out: Vec<EntryInfo> = Vec::new();
    let mut i: usize = 0;
    while i < n
        invariant
            i <= n,
            gd == data@,
            check_opens(gd, key@),
            n == reader.path_list().len(),
            reader.entries() == check_table(gd, key@),
            reader.path_list() == checked_paths(gd, key@),
            reader.is_verified(),
            out@.len() == i,
            forall|j: int| 0 <= j < i ==> entry_good(gd, key@, j),
            forall|j: int|
                0 <= j < i ==> (#[trigger] out@[j].path@) == checked_paths(gd, key@)[j]
                    && out@[j].size == check_table(gd, key@)[dec_bytes(j as nat)].0.len(),
        decreases n - i,
    {
        match reader.fetch_slot(i) {
            None => {
                proof {
                    assert(gd == data@);
                    assert(check_opens(data@, key@));
                    assert(!entry_good(data@, key@, i as int));
                    assert((i as int) < checked_paths(data@, key@).len());
                    assert forall|j: int| 0 <= j < i implies entry_good(data@, key@, j) by {
                        assert(entry_good(gd, key@, j));
                    }
                }
                return Err(CheckError::BadEntry(i));
            },
            Some((bytes, auth)) => {
                if !auth {
                    proof {
                        assert(gd == data@);
                        assert(check_opens(data@, key@));
                        assert(!entry_good(data@, key@, i as int));
                        assert((i as int) < checked_paths(data@, key@).len());
                        assert forall|j: int| 0 <= j < i implies entry_good(data@, key@, j) by {
                            assert(entry_good(gd, key@, j));
                        }
                    }
                    return Err(CheckError::BadEntry(i));
                }
                let p = reader.path_at(i);
                let size = bytes.len();
                out.push(EntryInfo { path: p, size });
            },
        }
        i += 1;
    }
    Ok(out)
}

} // verus!
