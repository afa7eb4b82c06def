//! Path shapes: extension detection for the companion-metadata convention,
//! and the prefix relation that makes a path a directory of the index.

use vstd::prelude::*;

use crate::codec::clone_bytes;

verus! {

/// `p[j]` is a dot that marks an extension: it sits in the final path
/// component (no separator after it), it is not the component's first byte,
/// and a byte precedes it.
pub open spec fn ext_dot_at(p: Seq<u8>, j: int) -> bool {
    &&& 0 < j < p.len()
    &&& p[j] == 46u8
    &&& p[j - 1] != 47u8
    &&& forall|k: int| j < k < p.len() ==> p[k] != 47u8
}

/// The final component of `p` has an extension, possibly empty: a dot stands
/// in it past its first byte.  The companion-metadata convention is defined
/// only for such paths.
pub open spec fn spec_has_extension(p: Seq<u8>) -> bool {
    exists|j: int| ext_dot_at(p, j)
}

/// The companion metadata path: the path with `.meta` appended.  Appending
/// the suffix to the existing extension leaves everything before it intact.
pub open spec fn meta_path_of(p: Seq<u8>) -> Seq<u8> {
    p + seq![46u8, 109u8, 101u8, 116u8, 97u8]
}

/// `q` strictly extends `p` with a separator: `p`, a slash, then more.
pub open spec fn dir_extends(q: Seq<u8>, p: Seq<u8>) -> bool {
    &&& q.len() > p.len()
    &&& q.subrange(0, p.len() as int) == p
    &&& q[p.len() as int] == 47u8
}

/// Membership in the listing of directory `p`: the path `p` itself, if
/// indexed, or any indexed path below it.
pub open spec fn in_listing(q: Seq<u8>, p: Seq<u8>) -> bool {
    q == p || dir_extends(q, p)
}

/// The listing predicate for directory `p`, as one reusable closure.
pub open spec fn listing_pred(p: Seq<u8>) -> spec_fn(Seq<u8>) -> bool {
    |q: Seq<u8>| in_listing(q, p)
}

/// Whether the path's final component has an extension.
pub fn has_extension(p: &Vec<u8>) -> (r: bool)
    ensures
        r == spec_has_extension(p@),
{
    let mut i: usize = p.len();
    while i > 0
        invariant
            i <= p@.len(),
            forall|j: int| i <= j < p@.len() ==> !ext_dot_at(p@, j),
            forall|k: int| i <= k < p@.len() ==> p@[k] != 47u8,
        decreases i,
    {
        i -= 1;
        if p[i] == 47 {
            proof {
                assert forall|j: int| 0 <= j < p@.len() implies !ext_dot_at(p@, j) by {
                    if j < i {
                        assert(p@[i as int] == 47u8);
                    }
                }
            }
            return false;
        }
        if p[i] == 46 {
            if i > 0 && p[i - 1] != 47 {
                proof {
                    assert(ext_dot_at(p@, i as int));
                }
                return true;
            }
        }
    }
    proof {
        assert forall|j: int| 0 <= j < p@.len() implies !ext_dot_at(p@, j) by {}
    }
    false
}

/// The companion metadata path of `path`: its extension gains the fixed
/// `.meta` suffix, which appends the suffix to the path itself.  The
/// convention is undefined for paths without an extension, which are ruled
/// out here.
pub fn get_meta_path(path: &Vec<u8>) -> (r: Vec<u8>)
    requires
        spec_has_extension(path@),
    ensures
        r@ == meta_path_of(path@),
{
    let mut r = clone_bytes(path);
    r.push(46);
    r.push(109);
    r.push(101);
    r.push(116);
    r.push(97);
    proof {
        assert(r@ =~= meta_path_of(path@));
    }
    r
}

/// Whether `q` strictly extends `p` with a separator.
pub fn extends_dir(q: &Vec<u8>, p: &Vec<u8>) -> (r: bool)
    ensures
        r == dir_extends(q@, p@),
{
    if q.len() <= p.len() {
        return false;
    }
    if q[p.len()] != 47 {
        return false;
    }
    let mut i: usize = 0;
    while i < p.len()
        invariant
            i <= p@.len(),
            p@.len() < q@.len(),
            forall|j: int| 0 <= j < i ==> q@[j] == p@[j],
        decreases p@.len() - i,
    {
        if q[i] != p[i] {
            proof {
                if dir_extends(q@, p@) {
                    assert(q@.subrange(0, p@.len() as int)[i as int] == p@[i as int]);
                    assert(false);
                }
            }
            return false;
        }
        i += 1;
    }
    proof {
        assert(q@.subrange(0, p@.len() as int) =~= p@);
    }
    true
}

/// Whether `q` belongs to the listing of directory `p`.
pub fn in_dir_listing(q: &Vec<u8>, p: &Vec<u8>) -> (r: bool)
    ensures
        r == in_listing(q@, p@),
{
    if crate::codec::bytes_eq(q, p) {
        true
    } else {
        extends_dir(q, p)
    }
}

} // verus!
