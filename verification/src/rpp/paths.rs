use vstd::prelude::*;

use smallvec::SmallVec;

use super::text::strings_view;

verus! {

/// A short list of paths: the files found for a plugin instance or for the
/// plugins of an effects chain, most often none, one or two.
#[verifier::external_body]
pub struct PathList {
    inner: SmallVec<[String; 2]>,
}

/// The paths that `v` holds, in order.
pub uninterp spec fn path_list(v: PathList) -> Seq<Seq<char>>;

/// An empty list.
///
/// Trusted: calls `smallvec::SmallVec::new`, whose source makes a vector of
/// length 0.
#[verifier::external_body]
fn path_list_new() -> (r: PathList)
    ensures
        path_list(r) == Seq::<Seq<char>>::empty(),
{
    PathList { inner: SmallVec::new() }
}

/// Appends `path` to `v`.
///
/// Trusted: calls `smallvec::SmallVec::push`, whose source writes the value
/// after the last element and adds one to the length, leaving the elements
/// before it as they were.
#[verifier::external_body]
fn path_list_push(v: &mut PathList, path: String)
    ensures
        path_list(*final(v)) == path_list(*old(v)).push(path@),
{
    v.inner.push(path)
}

/// The paths of `v`, in order, as a vector.
///
/// Trusted: calls `smallvec::SmallVec::into_vec`, whose source hands over
/// the elements in order.
#[verifier::external_body]
fn path_list_into_vec(v: PathList) -> (r: Vec<String>)
    ensures
        strings_view(r@) == path_list(v),
{
    v.inner.into_vec()
}

impl PathList {
    /// An empty list.
    pub fn new() -> (r: PathList)
        ensures
            path_list(r) == Seq::<Seq<char>>::empty(),
    {
        path_list_new()
    }

    /// Appends `path`.
    pub fn push(&mut self, path: String)
        ensures
            path_list(*final(self)) == path_list(*old(self)).push(path@),
    {
        path_list_push(self, path)
    }

    /// The paths, in order.
    pub fn into_vec(self) -> (r: Vec<String>)
        ensures
            strings_view(r@) == path_list(self),
    {
        path_list_into_vec(self)
    }
}

} // verus!
