//! Paths as texts.

use crate::text::{cat, cat3};
use vstd::prelude::*;

verus! {

/// A path below a directory: an absolute one stands for itself.
#[verifier::opaque]
pub open spec fn below(dir: Seq<char>, name: Seq<char>) -> Seq<char> {
    if name.len() > 0 && name[0] == '/' {
        name
    } else if dir.len() == 0 || dir.last() == '/' {
        dir + name
    } else {
        dir + "/"@ + name
    }
}

/// A path below a directory.
pub fn under(dir: &str, name: &str) -> (r: String)
    ensures
        r@ == below(dir@, name@),
{
    reveal(below);
    if name.unicode_len() > 0 && name.get_char(0) == '/' {
        return name.to_owned();
    }
    let n: usize = dir.unicode_len();
    if n == 0 || dir.get_char(n - 1) == '/' {
        cat(dir, name)
    } else {
        cat3(dir, "/", name)
    }
}

/// A path below a directory has one slash between them, unless the directory is empty or ends in one;
/// an absolute path stands for itself.
pub proof fn paths_are_joined_by_a_slash(dir: &str, name: &str, r: String)
    requires
        call_ensures(under, (dir, name), r),
    ensures
        name@.len() > 0 && name@[0] == '/' ==> r@ == name@,
        (name@.len() == 0 || name@[0] != '/') && (dir@.len() == 0 || dir@.last() == '/') ==> r@ == dir@ + name@,
        (name@.len() == 0 || name@[0] != '/') && dir@.len() > 0 && dir@.last() != '/' ==> r@ == dir@ + "/"@ + name@,
{
    reveal(below);
}

} // verus!
