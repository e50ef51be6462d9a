//! File-system path operations of the standard library, given contracts.
use vstd::prelude::*;

verus! {

/// What `std::path::Path::parent` gives for a path written as text: the
/// path without its final component, or `None` when there is none.
pub uninterp spec fn path_parent(path: Seq<char>) -> Option<Seq<char>>;

/// How `Ord for std::path::Path` orders two paths written as text
/// (component by component): -1, 0 or 1.
pub uninterp spec fn path_order(a: Seq<char>, b: Seq<char>) -> int;

/// Calls `std::path::Path::parent` on `path` and returns the parent as text.
/// Trusted: the result is `path_parent(path)`; as its documentation says,
/// the empty path and the root `/` have no parent. The text of the parent is
/// a prefix of `path` ending at a component boundary, so converting it back
/// to a string loses nothing.
#[verifier::external_body]
pub(crate) fn parent_of(path: &str) -> (res: Option<String>)
    ensures
        match res {
            Some(p) => path_parent(path@) == Some(p@),
            None => path_parent(path@) == None::<Seq<char>>,
        },
        path@.len() == 0 ==> res is None,
        path@ == seq!['/'] ==> res is None,
{
    match std::path::Path::new(path).parent() {
        Some(p) => Some(p.to_string_lossy().into_owned()),
        None => None,
    }
}

/// Compares two paths with `Ord for std::path::Path` and returns -1, 0 or 1
/// for less, equal and greater. Trusted: the result is `path_order(a, b)`;
/// and, as `Ord` documents for every implementation, the order is reflexive
/// (equal texts compare equal), antisymmetric (`b` against `a` gives the
/// reverse) and transitive (when `a < b`, every path above `b` is above `a`).
#[verifier::external_body]
pub(crate) fn compare_paths(a: &str, b: &str) -> (res: i8)
    ensures
        res == path_order(a@, b@),
        -1 <= res <= 1,
        a@ == b@ ==> res == 0,
        path_order(b@, a@) == -res,
        res < 0 ==> forall|c: Seq<char>| #[trigger] path_order(b@, c) < 0 ==> path_order(a@, c) < 0,
{
    match std::path::Path::new(a).cmp(std::path::Path::new(b)) {
        std::cmp::Ordering::Less => -1,
        std::cmp::Ordering::Equal => 0,
        std::cmp::Ordering::Greater => 1,
    }
}

} // verus!
