use vstd::prelude::*;

use super::element::{Child, Element};
use super::text::{opt_str_view, str_eq, strip_prefix};
use super::utils;

verus! {

/// The source type named in a `<SOURCE>` element's attribute, without the
/// `_OFFLINE_` marker that REAPER puts in front of it for offline media.
pub open spec fn strip_offline(t: Seq<char>) -> Seq<char> {
    if "_OFFLINE_"@.is_prefix_of(t) {
        t.skip("_OFFLINE_"@.len() as int)
    } else {
        t
    }
}

/// Source types that refer to no file.
pub open spec fn is_fileless_source(t: Seq<char>) -> bool {
    t == "MIDI"@ || t == "MIDIPOOL"@ || t == "CLICK"@ || t == "EMPTY"@
}

/// Source types whose file is named on a `FILE <path>` line.
pub open spec fn is_file_source(t: Seq<char>) -> bool {
    t == "FLAC"@ || t == "WAVE"@ || t == "VORBIS"@ || t == "OPUS"@ || t == "WAVE_SLICE"@
        || t == "REX"@ || t == "RPP_PROJECT"@ || t == "VIDEO"@
}

/// The path on the first `FILE` line with exactly `n` values among
/// `children[i..]`.
pub open spec fn first_file<'a>(children: Seq<Child<'a>>, n: nat, i: int) -> Option<Seq<char>>
    decreases children.len() - i,
{
    if i < 0 || i >= children.len() {
        None
    } else {
        match children[i] {
            Child::Line(line) => {
                if line@.len() == n && line@[0]@ == "FILE"@ {
                    Some(line@[1]@)
                } else {
                    first_file(children, n, i + 1)
                }
            },
            Child::Element(_) => first_file(children, n, i + 1),
        }
    }
}

/// What finding the path of a `<SOURCE>` element gives: `None` where the
/// search fails (the element names a source type that is not handled, or a
/// file source without its `FILE` line), else the path, if the source has one.
pub open spec fn spec_source_path<'a>(e: Element<'a>) -> Option<Option<Seq<char>>>
    decreases e, 1int, 0int,
{
    if e.attr@.len() != 1 {
        Some(None)
    } else {
        let t = strip_offline(e.attr@[0]@);
        if is_fileless_source(t) {
            Some(None)
        } else if is_file_source(t) {
            match first_file(e.children@, 2, 0) {
                Some(p) => Some(Some(p)),
                None => None,
            }
        } else if t == "MP3"@ {
            match first_file(e.children@, 3, 0) {
                Some(p) => Some(Some(p)),
                None => None,
            }
        } else if t == "SECTION"@ {
            section_source(e, 0)
        } else {
            None
        }
    }
}

/// The search of a `<SOURCE SECTION>` element's children, from child `i` on,
/// for an inner `<SOURCE>` that has a path.
pub open spec fn section_source<'a>(e: Element<'a>, i: int) -> Option<Option<Seq<char>>>
    decreases e, 0int, e.children@.len() - i,
{
    if i < 0 || i >= e.children@.len() {
        None
    } else {
        match e.children@[i] {
            Child::Element(c) => {
                if c.tag@ == "SOURCE"@ {
                    match spec_source_path(c) {
                        None => None,
                        Some(Some(p)) => Some(Some(p)),
                        Some(None) => section_source(e, i + 1),
                    }
                } else {
                    section_source(e, i + 1)
                }
            },
            Child::Line(_) => section_source(e, i + 1),
        }
    }
}

/// The view of what a search for a path gives: `None` where it fails.
pub open spec fn search_view(r: Option<Option<&str>>) -> Option<Option<Seq<char>>> {
    match r {
        Some(p) => Some(opt_str_view(p)),
        None => None,
    }
}

/// The path on the first `FILE` line with `N` values among `children`.
fn find_file<'a, const N: usize>(children: &'a Vec<Child<'a>>) -> (r: Option<&'a str>)
    requires
        N >= 2,
    ensures
        opt_str_view(r) == first_file(children@, N as nat, 0),
{
    let mut i: usize = 0;
    while i < children.len()
        invariant
            N >= 2,
            i <= children@.len(),
            first_file(children@, N as nat, 0) == first_file(children@, N as nat, i as int),
        decreases children@.len() - i,
    {
        if let Some(arr) = utils::child_as_arr::<N>(&children[i]) {
            if str_eq(arr[0], "FILE") {
                return Some(arr[1]);
            }
        }
        i = i + 1;
    }
    None
}

/// Finds the path of a `<SOURCE>` element, or `None` where the search fails
/// (see [`spec_source_path`]).
pub fn try_get_source_path<'a>(e: &'a Element<'a>) -> (r: Option<Option<&'a str>>)
    ensures
        search_view(r) == spec_source_path(*e),
    decreases *e, 1int, 0int,
{
    let Some(arr) = utils::attr_as_arr::<1>(e.attr.as_slice()) else {
        return Some(None);
    };
    let source_type = arr[0];
    let source_type = match strip_prefix(source_type, "_OFFLINE_") {
        Some(rest) => rest,
        None => source_type,
    };
    if str_eq(source_type, "MIDI") || str_eq(source_type, "MIDIPOOL") || str_eq(source_type, "CLICK")
        || str_eq(source_type, "EMPTY") {
        Some(None)
    } else if str_eq(source_type, "FLAC") || str_eq(source_type, "WAVE") || str_eq(
        source_type,
        "VORBIS",
    ) || str_eq(source_type, "OPUS") || str_eq(source_type, "WAVE_SLICE") || str_eq(
        source_type,
        "REX",
    ) || str_eq(source_type, "RPP_PROJECT") || str_eq(source_type, "VIDEO") {
        match find_file::<2>(&e.children) {
            Some(p) => Some(Some(p)),
            None => None,
        }
    } else if str_eq(source_type, "MP3") {
        match find_file::<3>(&e.children) {
            Some(p) => Some(Some(p)),
            None => None,
        }
    } else if str_eq(source_type, "SECTION") {
        find_section_source(e)
    } else {
        None
    }
}

/// The search of a `<SOURCE SECTION>` for the first inner `<SOURCE>` that has
/// a path (see [`section_source`]).
fn find_section_source<'a>(e: &'a Element<'a>) -> (r: Option<Option<&'a str>>)
    ensures
        search_view(r) == section_source(*e, 0),
    decreases *e, 0int, e.children@.len(),
{
    let mut i: usize = 0;
    while i < e.children.len()
        invariant
            i <= e.children@.len(),
            section_source(*e, 0) == section_source(*e, i as int),
        decreases e.children@.len() - i,
    {
        if let Child::Element(c) = &e.children[i] {
            if str_eq(c.tag, "SOURCE") {
                match try_get_source_path(c) {
                    None => {
                        return None;
                    },
                    Some(Some(p)) => {
                        return Some(Some(p));
                    },
                    Some(None) => {},
                }
            }
        }
        i = i + 1;
    }
    None
}

/// Find the path of a `<SOURCE>` element
pub fn get_source_path<'a>(e: &'a Element<'a>) -> (r: Option<&'a str>)
    requires
        spec_source_path(*e) is Some,
    ensures
        spec_source_path(*e) == Some(opt_str_view(r)),
{
    try_get_source_path(e).unwrap()
}

/// The search of a section depends on the section's children only.
proof fn lemma_section_same_children<'a>(e1: Element<'a>, e2: Element<'a>, i: int)
    requires
        e1.children@ == e2.children@,
    ensures
        section_source(e1, i) == section_source(e2, i),
    decreases e1.children@.len() - i,
{
    if 0 <= i < e1.children@.len() {
        lemma_section_same_children(e1, e2, i + 1);
    }
}

/// A source marked offline (its type written with the `_OFFLINE_` prefix)
/// has the path that it has when not so marked.
pub proof fn lemma_offline_source_path<'a>(online: Element<'a>, offline: Element<'a>)
    requires
        online.children@ == offline.children@,
        online.attr@.len() == 1,
        offline.attr@.len() == 1,
        offline.attr@[0]@ == "_OFFLINE_"@ + online.attr@[0]@,
        !"_OFFLINE_"@.is_prefix_of(online.attr@[0]@),
    ensures
        spec_source_path(offline) == spec_source_path(online),
{
    let t = online.attr@[0]@;
    let p = "_OFFLINE_"@;
    assert(p.is_prefix_of(p + t)) by {
        assert((p + t).subrange(0, p.len() as int) =~= p);
    }
    assert((p + t).skip(p.len() as int) =~= t);
    lemma_section_same_children(online, offline, 0);
}

/// Whether `c` is a `FILE` line with exactly `n` values.
pub open spec fn is_file_line_of<'a>(c: Child<'a>, n: nat) -> bool {
    c matches Child::Line(l) && l@.len() == n && l@[0]@ == "FILE"@
}

/// Whether `c` is a `FILE <path>` line with exactly two values.
pub open spec fn is_file_line<'a>(c: Child<'a>) -> bool {
    is_file_line_of(c, 2)
}

/// The search for a `FILE` line finds the first one.
proof fn lemma_first_file_found<'a>(children: Seq<Child<'a>>, n: nat, k: int, i: int)
    requires
        n >= 2,
        0 <= k <= i < children.len(),
        is_file_line_of(children[i], n),
        forall|j: int| 0 <= j < i ==> !is_file_line_of(#[trigger] children[j], n),
    ensures
        first_file(children, n, k) == Some(children[i]->Line_0@[1]@),
    decreases i - k,
{
    if k < i {
        assert(!is_file_line_of(children[k], n));
        lemma_first_file_found(children, n, k + 1, i);
    }
}

/// The `_OFFLINE_` marker comes off a type written with it, and a type
/// written without it is kept.
proof fn lemma_strip_offline(t: Seq<char>)
    requires
        t.len() > 0,
        t[0] != '_',
    ensures
        strip_offline(t) == t,
        strip_offline("_OFFLINE_"@ + t) == t,
{
    reveal_strlit("_OFFLINE_");
    let p = "_OFFLINE_"@;
    assert(!p.is_prefix_of(t)) by {
        if p.is_prefix_of(t) {
            assert(t[0] == p[0]);
        }
    }
    assert(p.is_prefix_of(p + t)) by {
        assert((p + t).subrange(0, p.len() as int) =~= p);
    }
    assert((p + t).skip(p.len() as int) =~= t);
}

/// A source of a file type (FLAC, WAVE, VORBIS, OPUS, WAVE_SLICE, REX,
/// RPP_PROJECT or VIDEO), marked offline or not, has the path on its first
/// `FILE` line with two values.
pub proof fn lemma_file_source_path<'a>(e: Element<'a>, t: Seq<char>, i: int)
    requires
        t == "FLAC"@ || t == "WAVE"@ || t == "VORBIS"@ || t == "OPUS"@ || t == "WAVE_SLICE"@ || t
            == "REX"@ || t == "RPP_PROJECT"@ || t == "VIDEO"@,
        e.attr@.len() == 1,
        e.attr@[0]@ == t || e.attr@[0]@ == "_OFFLINE_"@ + t,
        0 <= i < e.children@.len(),
        is_file_line(e.children@[i]),
        forall|j: int| 0 <= j < i ==> !is_file_line(#[trigger] e.children@[j]),
    ensures
        spec_source_path(e) == Some(Some(e.children@[i]->Line_0@[1]@)),
{
    reveal_strlit("FLAC");
    reveal_strlit("WAVE");
    reveal_strlit("VORBIS");
    reveal_strlit("OPUS");
    reveal_strlit("WAVE_SLICE");
    reveal_strlit("REX");
    reveal_strlit("RPP_PROJECT");
    reveal_strlit("VIDEO");
    reveal_strlit("MIDI");
    reveal_strlit("MIDIPOOL");
    reveal_strlit("CLICK");
    reveal_strlit("EMPTY");
    lemma_strip_offline(t);
    assert(strip_offline(e.attr@[0]@) == t);
    assert(t[0] != 'M' && t[0] != 'C' && t[0] != 'E');
    assert(!is_fileless_source(t)) by {
        if is_fileless_source(t) {
            assert(t[0] == 'M' || t[0] == 'C' || t[0] == 'E');
        }
    }
    assert(is_file_source(t));
    lemma_first_file_found(e.children@, 2, 0, i);
}

/// The types of the sources that name no file, as written in a `<SOURCE>`
/// element, marked offline or not: MIDI, MIDIPOOL, CLICK and EMPTY.
pub open spec fn names_fileless_type(a: Seq<char>) -> bool {
    ||| a == "MIDI"@ || a == "MIDIPOOL"@ || a == "CLICK"@ || a == "EMPTY"@
    ||| a == "_OFFLINE_"@ + "MIDI"@ || a == "_OFFLINE_"@ + "MIDIPOOL"@ || a == "_OFFLINE_"@
        + "CLICK"@ || a == "_OFFLINE_"@ + "EMPTY"@
}

/// The search of a section never ends with "no file": it finds a path or
/// fails.
proof fn lemma_section_not_fileless<'a>(e: Element<'a>, i: int)
    ensures
        section_source(e, i) != Some(None::<Seq<char>>),
    decreases e.children@.len() - i,
{
    if 0 <= i < e.children@.len() {
        lemma_section_not_fileless(e, i + 1);
    }
}

/// A `<SOURCE>` element has no file exactly when its attributes are not a
/// single type, or its type is MIDI, MIDIPOOL, CLICK or EMPTY (marked
/// offline or not); every other source either has a file or cannot be
/// read.
pub proof fn lemma_fileless_sources<'a>(e: Element<'a>)
    ensures
        spec_source_path(e) == Some(None::<Seq<char>>) <==> (e.attr@.len() != 1
            || names_fileless_type(e.attr@[0]@)),
{
    reveal_strlit("MIDI");
    reveal_strlit("MIDIPOOL");
    reveal_strlit("CLICK");
    reveal_strlit("EMPTY");
    reveal_strlit("_OFFLINE_");
    lemma_strip_offline("MIDI"@);
    lemma_strip_offline("MIDIPOOL"@);
    lemma_strip_offline("CLICK"@);
    lemma_strip_offline("EMPTY"@);
    lemma_section_not_fileless(e, 0);
    if e.attr@.len() == 1 {
        let a = e.attr@[0]@;
        let p = "_OFFLINE_"@;
        if p.is_prefix_of(a) {
            assert(a =~= p + a.skip(p.len() as int));
        }
    }
}

/// An MP3 source, marked offline or not, has the path on its first `FILE`
/// line with three values.
pub proof fn lemma_mp3_source_path<'a>(e: Element<'a>, i: int)
    requires
        e.attr@.len() == 1,
        e.attr@[0]@ == "MP3"@ || e.attr@[0]@ == "_OFFLINE_"@ + "MP3"@,
        0 <= i < e.children@.len(),
        is_file_line_of(e.children@[i], 3),
        forall|j: int| 0 <= j < i ==> !is_file_line_of(#[trigger] e.children@[j], 3),
    ensures
        spec_source_path(e) == Some(Some(e.children@[i]->Line_0@[1]@)),
{
    reveal_strlit("MP3");
    reveal_strlit("FLAC");
    reveal_strlit("WAVE");
    reveal_strlit("VORBIS");
    reveal_strlit("OPUS");
    reveal_strlit("WAVE_SLICE");
    reveal_strlit("REX");
    reveal_strlit("RPP_PROJECT");
    reveal_strlit("VIDEO");
    reveal_strlit("MIDI");
    reveal_strlit("MIDIPOOL");
    reveal_strlit("CLICK");
    reveal_strlit("EMPTY");
    let t = "MP3"@;
    lemma_strip_offline(t);
    assert(strip_offline(e.attr@[0]@) == t);
    assert(!is_fileless_source(t)) by {
        if is_fileless_source(t) {
            assert(t[0] == 'M' && t.len() == 3);
        }
    }
    assert(!is_file_source(t)) by {
        if is_file_source(t) {
            assert(t[0] != 'M');
        }
    }
    lemma_first_file_found(e.children@, 3, 0, i);
}

/// Whether `c` is a `<SOURCE>` sub-element.
pub open spec fn is_source_child<'a>(c: Child<'a>) -> bool {
    c matches Child::Element(x) && x.tag@ == "SOURCE"@
}

/// The search of a section finds its first inner source with a file.
proof fn lemma_section_found<'a>(e: Element<'a>, k: int, i: int)
    requires
        0 <= k <= i < e.children@.len(),
        e.children@[i] matches Child::Element(c) && c.tag@ == "SOURCE"@ && spec_source_path(c) is Some
            && spec_source_path(c)->0 is Some,
        forall|j: int|
            0 <= j < i && is_source_child(#[trigger] e.children@[j]) ==> spec_source_path(
                e.children@[j]->Element_0,
            ) == Some(None::<Seq<char>>),
    ensures
        section_source(e, k) == spec_source_path(e.children@[i]->Element_0),
    decreases i - k,
{
    if k < i {
        lemma_section_found(e, k + 1, i);
    }
}

/// A section source, marked offline or not, has the file of its first inner
/// `<SOURCE>` that has one, where every inner source before it has none.
pub proof fn lemma_section_source_path<'a>(e: Element<'a>, i: int)
    requires
        e.attr@.len() == 1,
        e.attr@[0]@ == "SECTION"@ || e.attr@[0]@ == "_OFFLINE_"@ + "SECTION"@,
        0 <= i < e.children@.len(),
        e.children@[i] matches Child::Element(c) && c.tag@ == "SOURCE"@ && spec_source_path(c) is Some
            && spec_source_path(c)->0 is Some,
        forall|j: int|
            0 <= j < i && is_source_child(#[trigger] e.children@[j]) ==> spec_source_path(
                e.children@[j]->Element_0,
            ) == Some(None::<Seq<char>>),
    ensures
        spec_source_path(e) == spec_source_path(e.children@[i]->Element_0),
{
    reveal_strlit("SECTION");
    reveal_strlit("MP3");
    reveal_strlit("FLAC");
    reveal_strlit("WAVE");
    reveal_strlit("VORBIS");
    reveal_strlit("OPUS");
    reveal_strlit("WAVE_SLICE");
    reveal_strlit("REX");
    reveal_strlit("RPP_PROJECT");
    reveal_strlit("VIDEO");
    reveal_strlit("MIDI");
    reveal_strlit("MIDIPOOL");
    reveal_strlit("CLICK");
    reveal_strlit("EMPTY");
    let t = "SECTION"@;
    lemma_strip_offline(t);
    assert(strip_offline(e.attr@[0]@) == t);
    assert(t.len() == 7 && t[0] == 'S');
    assert(!is_fileless_source(t)) by {
        if is_fileless_source(t) {
            assert(t[0] != 'S');
        }
    }
    assert(!is_file_source(t)) by {
        if is_file_source(t) {
            assert(t[0] != 'S');
        }
    }
    assert(t != "MP3"@);
    lemma_section_found(e, 0, i);
}

} // verus!
