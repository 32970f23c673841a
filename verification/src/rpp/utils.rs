use vstd::prelude::*;

use super::element::Child;

verus! {

/// Copies a slice of exactly `N` string slices into an array.
fn slice_to_array<'a, const N: usize>(s: &[&'a str]) -> (r: [&'a str; N])
    requires
        s@.len() == N,
    ensures
        r@ == s@,
{
    let mut arr: [&'a str; N] = [""; N];
    let mut i: usize = 0;
    while i < N
        invariant
            i <= N,
            s@.len() == N,
            arr@.len() == N,
            forall|j: int| 0 <= j < i ==> arr@[j] == s@[j],
        decreases N - i,
    {
        arr[i] = s[i];
        i = i + 1;
    }
    assert(arr@ =~= s@);
    arr
}

/// Treat a `Child` as a fixed-length string array `[&str; N]`
pub fn child_as_arr<'a, const N: usize>(child: &'a Child<'a>) -> (r: Option<[&'a str; N]>)
    ensures
        r is Some <==> (child matches Child::Line(line) && line@.len() == N),
        r matches Some(a) ==> (child matches Child::Line(line) && a@ == line@),
{
    match child {
        Child::Line(line) => attr_as_arr(line.as_slice()),
        Child::Element(_) => None,
    }
}

/// Treat an attr slice `&[&str]` as a fixed-length string array `[&str; N]`
pub fn attr_as_arr<'a, const N: usize>(attr: &'a [&'a str]) -> (r: Option<[&'a str; N]>)
    ensures
        r is Some <==> attr@.len() == N,
        r matches Some(a) ==> a@ == attr@,
{
    if attr.len() == N {
        Some(slice_to_array(attr))
    } else {
        None
    }
}

} // verus!
