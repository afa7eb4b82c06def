//! The tree-walk skip policy: directories themselves, hidden names, a fixed
//! set of excluded exact names, and a fixed set of excluded extensions never
//! become entries.  The walk itself is I/O and lives outside; these
//! predicates decide, on plain name bytes, what it admits.

use vstd::prelude::*;

use crate::codec::bytes_eq;

verus! {

/// A hidden name: it begins with the dot marker.
pub open spec fn hidden_name(name: Seq<u8>) -> bool {
    name.len() > 0 && name[0] == 46u8
}

/// The excluded exact name `.git`.
pub open spec fn git_name() -> Seq<u8> {
    seq![46u8, 103u8, 105u8, 116u8]
}

/// The excluded exact name `node_modules`.
pub open spec fn node_modules_name() -> Seq<u8> {
    seq![110u8, 111u8, 100u8, 101u8, 95u8, 109u8, 111u8, 100u8, 117u8, 108u8, 101u8, 115u8]
}

/// The excluded exact name `target`.
pub open spec fn target_name() -> Seq<u8> {
    seq![116u8, 97u8, 114u8, 103u8, 101u8, 116u8]
}

/// The name ends with the excluded extension `.xcf`.
pub open spec fn has_skip_extension(name: Seq<u8>) -> bool {
    &&& name.len() >= 4
    &&& name[name.len() - 4] == 46u8
    &&& name[name.len() - 3] == 120u8
    &&& name[name.len() - 2] == 99u8
    &&& name[name.len() - 1] == 102u8
}

/// The walk skips this entry: every directory itself (only leaf files become
/// entries), the excluded exact names, and the excluded extensions.
pub open spec fn spec_should_skip(name: Seq<u8>, is_dir: bool) -> bool {
    ||| is_dir
    ||| name == git_name()
    ||| name == node_modules_name()
    ||| name == target_name()
    ||| has_skip_extension(name)
}

/// Whether a name is hidden: hidden entries are pruned from the walk with
/// their whole subtree.
pub fn is_hidden(name: &Vec<u8>) -> (r: bool)
    ensures
        r == hidden_name(name@),
{
    if name.len() == 0 {
        false
    } else {
        name[0] == 46
    }
}

fn git_bytes() -> (r: Vec<u8>)
    ensures
        r@ == git_name(),
{
    let mut v: Vec<u8> = Vec::new();
    v.push(46);
    v.push(103);
    v.push(105);
    v.push(116);
    proof {
        assert(v@ =~= git_name());
    }
    v
}

fn node_modules_bytes() -> (r: Vec<u8>)
    ensures
        r@ == node_modules_name(),
{
    let mut v: Vec<u8> = Vec::new();
    v.push(110);
    v.push(111);
    v.push(100);
    v.push(101);
    v.push(95);
    v.push(109);
    v.push(111);
    v.push(100);
    v.push(117);
    v.push(108);
    v.push(101);
    v.push(115);
    proof {
        assert(v@ =~= node_modules_name());
    }
    v
}

fn target_bytes() -> (r: Vec<u8>)
    ensures
        r@ == target_name(),
{
    let mut v: Vec<u8> = Vec::new();
    v.push(116);
    v.push(97);
    v.push(114);
    v.push(103);
    v.push(101);
    v.push(116);
    proof {
        assert(v@ =~= target_name());
    }
    v
}

/// Whether the walk skips this entry, by its name bytes and whether it is a
/// directory.
pub fn should_skip(name: &Vec<u8>, is_dir: bool) -> (r: bool)
    ensures
        r == spec_should_skip(name@, is_dir),
{
    if is_dir {
        return true;
    }
    if bytes_eq(name, &git_bytes()) {
        return true;
    }
    if bytes_eq(name, &node_modules_bytes()) {
        return true;
    }
    if bytes_eq(name, &target_bytes()) {
        return true;
    }
    if name.len() >= 4 {
        let n = name.len();
        if name[n - 4] == 46 && name[n - 3] == 120 && name[n - 2] == 99 && name[n - 1] == 102 {
            return true;
        }
    }
    false
}

} // verus!
