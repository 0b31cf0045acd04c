//! Inode numbers derived from paths. The root is 1; any other path gets a
//! stable hash of its characters. Collisions are not detected: two live
//! paths with one hash would resolve to whichever the store meets first.
use std::hash::BuildHasher;
use vstd::prelude::*;

verus! {

/// The hash of a path's characters under std's `DefaultHasher`.
pub uninterp spec fn path_hash(path: Seq<char>) -> u64;

/// Relies on `BuildHasher::hash_one` over std's `DefaultHasher`, whose
/// instances all start from the same fixed keys: the result depends on the
/// path's characters alone.
#[verifier::external_body]
fn hash_path(path: &str) -> (r: u64)
    ensures
        r == path_hash(path@),
{
    std::hash::BuildHasherDefault::<std::collections::hash_map::DefaultHasher>::default().hash_one(path)
}

/// The identity of the root directory.
pub const ROOT_ID: u64 = 1;

/// The identity (inode number) of a path.
pub open spec fn identity_of(path: Seq<char>) -> u64 {
    if path.len() == 0 {
        ROOT_ID
    } else {
        path_hash(path)
    }
}

/// The identity (inode number) of a path.
pub fn identity(path: &str) -> (r: u64)
    ensures
        r == identity_of(path@),
{
    if path.unicode_len() == 0 {
        ROOT_ID
    } else {
        hash_path(path)
    }
}

} // verus!
