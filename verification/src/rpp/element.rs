use vstd::prelude::*;

verus! {

/// One `<TAG attr...>` block of an RPP project file, with its children.
#[derive(Debug)]
pub struct Element<'a> {
    /// The element's name, e.g. `REAPER_PROJECT`, `TRACK`, `FXCHAIN`, `VST`.
    pub tag: &'a str,
    /// The values that follow the tag on the element's first line.
    pub attr: Vec<&'a str>,
    /// The lines and sub-elements inside the element.
    pub children: Vec<Child<'a>>,
}

/// A child of an [`Element`]: a line split into values, or a sub-element.
#[derive(Debug)]
pub enum Child<'a> {
    Line(Vec<&'a str>),
    Element(Element<'a>),
}

/// The character sequences of a list of string slices.
pub open spec fn strs_view<'a>(s: Seq<&'a str>) -> Seq<Seq<char>> {
    s.map_values(|x: &'a str| x@)
}

} // verus!
