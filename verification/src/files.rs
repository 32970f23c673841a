use vstd::prelude::*;

verus! {

/// The byte `b` with an ASCII capital letter made small.
pub open spec fn ascii_lower(b: u8) -> u8 {
    if 65 <= b <= 90 {
        (b + 32) as u8
    } else {
        b
    }
}

/// Whether the file name `name` has the extension `rpp`, in any ASCII case:
/// it ends in `.rpp` and that `.` is not its first byte. This is exactly
/// where std's `Path::extension` of the name is `rpp` up to ASCII case.
pub open spec fn spec_is_rpp_name(name: Seq<u8>) -> bool {
    let n = name.len();
    &&& n > 4
    &&& name[n - 4] == 46u8
    &&& ascii_lower(name[n - 3]) == 114u8
    &&& ascii_lower(name[n - 2]) == 112u8
    &&& ascii_lower(name[n - 1]) == 112u8
}

/// The byte `b` with an ASCII capital letter made small.
fn lower(b: u8) -> (r: u8)
    ensures
        r == ascii_lower(b),
{
    if 65 <= b && b <= 90 {
        b + 32
    } else {
        b
    }
}

/// Whether the file name `name` (its bytes) names a REAPER project file (see
/// [`spec_is_rpp_name`]).
pub fn is_rpp_name(name: &[u8]) -> (r: bool)
    ensures
        r == spec_is_rpp_name(name@),
{
    let n = name.len();
    if n <= 4 {
        return false;
    }
    name[n - 4] == 46 && lower(name[n - 3]) == 114 && lower(name[n - 2]) == 112 && lower(
        name[n - 1],
    ) == 112
}

} // verus!
