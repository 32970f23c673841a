pub mod element;
pub mod path_key;
pub mod paths;
pub mod plugin;
pub mod plugin_data;
pub mod project_laws;
pub mod source;
pub mod text;
pub mod usages;
pub mod utils;

use vstd::prelude::*;

use jiff::Timestamp;

pub use self::element::{Child, Element};
pub use self::plugin::{Plugin, PluginKind};
pub use self::usages::{PathUsages, Usages};

use self::element::strs_view;
use self::plugin::{find_fxchain_paths, lemma_prepend_assoc, prepend_some, spec_fxchain_paths};
use self::source::{spec_source_path, try_get_source_path};
use self::text::{debug_strs, debug_text_of_strs, parse_i64, spec_parse_i64, str_eq, strings_view};
use self::usages::{
    add_usage, has_flags, lemma_add_usage, lemma_contains_refl, lemma_contains_trans,
    lemma_scan_flags_not_metronome, lemma_union_without_metronome, ITEM_BITS, METRONOME_BITS,
    PLUGIN_BITS, RECORD_PATH_BITS, UsageMap,
};
use self::path_key::{path_key, PathKey};

verus! {

#[verifier::external_type_specification]
#[verifier::external_body]
pub struct ExTimestamp(Timestamp);

/// The earliest second, counted from the Unix epoch, that a `Timestamp` can
/// hold.
pub const TIMESTAMP_MIN_SECOND: i64 = -377705023201;

/// The latest second, counted from the Unix epoch, that a `Timestamp` can
/// hold.
pub const TIMESTAMP_MAX_SECOND: i64 = 253402207200;

/// The instant `second` seconds after the Unix epoch, as jiff's
/// `Timestamp::from_second` gives it where it succeeds.
pub uninterp spec fn timestamp_of_second(second: i64) -> Timestamp;

/// The instant `second` seconds after the Unix epoch, where a `Timestamp`
/// can hold it.
///
/// Trusted: calls `jiff::Timestamp::from_second`, which its documentation
/// and source say fails exactly when `second` lies outside
/// `-377705023201..=253402207200`; the instant it gives depends on `second`
/// alone and is named by [`timestamp_of_second`].
#[verifier::external_body]
fn timestamp_from_second(second: i64) -> (r: Option<Timestamp>)
    ensures
        r is Some <==> TIMESTAMP_MIN_SECOND <= second <= TIMESTAMP_MAX_SECOND,
        r matches Some(t) ==> t == timestamp_of_second(second),
{
    Timestamp::from_second(second).ok()
}

/// The values of the `SAMPLES` lines among `children[i..]` that are not
/// empty, appended to `acc`.
pub open spec fn metronome_from<'a>(children: Seq<Child<'a>>, i: int, acc: Seq<Seq<char>>) -> Seq<
    Seq<char>,
>
    decreases children.len() - i,
{
    if i < 0 || i >= children.len() {
        acc
    } else {
        match children[i] {
            Child::Line(items) => {
                if items@.len() >= 1 && items@[0]@ == "SAMPLES"@ {
                    metronome_from(children, i + 1, nonempty_from(strs_view(items@), 1, acc))
                } else {
                    metronome_from(children, i + 1, acc)
                }
            },
            Child::Element(_) => metronome_from(children, i + 1, acc),
        }
    }
}

/// The values `vals[j..]` that are not empty, appended to `acc`.
pub open spec fn nonempty_from(vals: Seq<Seq<char>>, j: int, acc: Seq<Seq<char>>) -> Seq<Seq<char>>
    decreases vals.len() - j,
{
    if j < 0 || j >= vals.len() {
        acc
    } else if vals[j].len() > 0 {
        nonempty_from(vals, j + 1, acc.push(vals[j]))
    } else {
        nonempty_from(vals, j + 1, acc)
    }
}

/// Find all paths in a `<METRONOME>` element: the non-empty values of its
/// `SAMPLES` lines, in order.
pub fn iter_metronome_paths<'a>(e: &'a Element<'a>) -> (r: Vec<&'a str>)
    ensures
        strs_view(r@) == metronome_from(e.children@, 0, Seq::empty()),
{
    let mut out: Vec<&'a str> = Vec::new();
    assert(strs_view(out@) =~= Seq::<Seq<char>>::empty());
    let mut i: usize = 0;
    while i < e.children.len()
        invariant
            i <= e.children@.len(),
            metronome_from(e.children@, 0, Seq::empty()) == metronome_from(
                e.children@,
                i as int,
                strs_view(out@),
            ),
        decreases e.children@.len() - i,
    {
        if let Child::Line(items) = &e.children[i] {
            if items.len() >= 1 && str_eq(items[0], "SAMPLES") {
                let ghost iv = strs_view(items@);
                let ghost start_out = strs_view(out@);
                let mut j: usize = 1;
                while j < items.len()
                    invariant
                        1 <= j <= items@.len(),
                        iv == strs_view(items@),
                        nonempty_from(iv, 1, start_out) == nonempty_from(
                            iv,
                            j as int,
                            strs_view(out@),
                        ),
                    decreases items@.len() - j,
                {
                    if !items[j].is_empty() {
                        let ghost before = out@;
                        out.push(items[j]);
                        assert(strs_view(out@) =~= strs_view(before).push(iv[j as int]));
                    }
                    j = j + 1;
                }
            }
        }
        i = i + 1;
    }
    out
}

/// The paths of the `<SOURCE>` sub-elements of an `<ITEM>`, `item.children[j..]`,
/// appended to `acc`; `None` where the path of a source cannot be found.
pub open spec fn item_sources_from<'a>(item: Element<'a>, j: int, acc: Seq<Seq<char>>) -> Option<
    Seq<Seq<char>>,
>
    decreases item.children@.len() - j,
{
    if j < 0 || j >= item.children@.len() {
        Some(acc)
    } else {
        match item.children@[j] {
            Child::Element(c) => {
                if c.tag@ == "SOURCE"@ {
                    match spec_source_path(c) {
                        Some(Some(p)) => item_sources_from(item, j + 1, acc.push(p)),
                        Some(None) => item_sources_from(item, j + 1, acc),
                        None => None,
                    }
                } else {
                    item_sources_from(item, j + 1, acc)
                }
            },
            Child::Line(_) => item_sources_from(item, j + 1, acc),
        }
    }
}

/// The media paths of the `<ITEM>`s of a track, `track.children[i..]`,
/// appended to `acc`; `None` where the path of a source cannot be found.
pub open spec fn track_items_from<'a>(track: Element<'a>, i: int, acc: Seq<Seq<char>>) -> Option<
    Seq<Seq<char>>,
>
    decreases track.children@.len() - i,
{
    if i < 0 || i >= track.children@.len() {
        Some(acc)
    } else {
        match track.children@[i] {
            Child::Element(c) => {
                if c.tag@ == "ITEM"@ {
                    match item_sources_from(c, 0, acc) {
                        Some(a) => track_items_from(track, i + 1, a),
                        None => None,
                    }
                } else {
                    track_items_from(track, i + 1, acc)
                }
            },
            Child::Line(_) => track_items_from(track, i + 1, acc),
        }
    }
}

/// The paths of the media of the items of a `<TRACK>` element, item after
/// item and source after source; `None` where the path of a source cannot be
/// found (see [`spec_source_path`]).
pub open spec fn spec_track_item_paths<'a>(track: Element<'a>) -> Option<Seq<Seq<char>>> {
    track_items_from(track, 0, Seq::empty())
}

/// The paths of the media of the items of a track, or `None` (see
/// [`spec_track_item_paths`]).
pub fn try_track_item_paths<'a>(e: &'a Element<'a>) -> (r: Option<Vec<&'a str>>)
    ensures
        match r {
            Some(v) => spec_track_item_paths(*e) == Some(strs_view(v@)),
            None => spec_track_item_paths(*e) is None,
        },
{
    let mut out: Vec<&'a str> = Vec::new();
    assert(strs_view(out@) =~= Seq::<Seq<char>>::empty());
    let mut i: usize = 0;
    while i < e.children.len()
        invariant
            i <= e.children@.len(),
            spec_track_item_paths(*e) == track_items_from(*e, i as int, strs_view(out@)),
        decreases e.children@.len() - i,
    {
        if let Child::Element(item) = &e.children[i] {
            if str_eq(item.tag, "ITEM") {
                let ghost start_out = strs_view(out@);
                let mut j: usize = 0;
                while j < item.children.len()
                    invariant
                        j <= item.children@.len(),
                        i < e.children@.len(),
                        e.children@[i as int] == Child::Element(*item),
                        item.tag@ == "ITEM"@,
                        spec_track_item_paths(*e) == track_items_from(*e, i as int, start_out),
                        item_sources_from(*item, 0, start_out) == item_sources_from(
                            *item,
                            j as int,
                            strs_view(out@),
                        ),
                    decreases item.children@.len() - j,
                {
                    if let Child::Element(source) = &item.children[j] {
                        if str_eq(source.tag, "SOURCE") {
                            match try_get_source_path(source) {
                                Some(Some(p)) => {
                                    let ghost before = out@;
                                    out.push(p);
                                    assert(strs_view(out@) =~= strs_view(before).push(p@));
                                },
                                Some(None) => {},
                                None => {
                                    return None;
                                },
                            }
                        }
                    }
                    j = j + 1;
                }
            }
        }
        i = i + 1;
    }
    Some(out)
}

/// The paths of the media of the items of a `<TRACK>` element.
pub fn iter_track_item_paths<'a>(e: &'a Element<'a>) -> (r: Vec<&'a str>)
    requires
        spec_track_item_paths(*e) is Some,
    ensures
        spec_track_item_paths(*e) == Some(strs_view(r@)),
{
    try_track_item_paths(e).unwrap()
}

/// `m` with the flags of `flag` added to those of each of `paths`.
pub open spec fn add_all(m: UsageMap, paths: Seq<Seq<char>>, flag: u8) -> UsageMap
    decreases paths.len(),
{
    if paths.len() == 0 {
        m
    } else {
        add_usage(add_all(m, paths.drop_last(), flag), paths.last(), flag)
    }
}

/// The first sub-element tagged `tag` among `children[i..]`.
pub open spec fn first_tagged<'a>(children: Seq<Child<'a>>, tag: Seq<char>, i: int) -> Option<
    Element<'a>,
>
    decreases children.len() - i,
{
    if i < 0 || i >= children.len() {
        None
    } else {
        match children[i] {
            Child::Element(c) => {
                if c.tag@ == tag {
                    Some(c)
                } else {
                    first_tagged(children, tag, i + 1)
                }
            },
            Child::Line(_) => first_tagged(children, tag, i + 1),
        }
    }
}

/// The message for a `RECORD_PATH` line whose values are not two.
pub open spec fn record_path_message(vals: Seq<Seq<char>>) -> Seq<char> {
    "expected project record path to have exactly 2 values: "@ + debug_text_of_strs(vals)
}

/// Reading child `i` of a project into the usages `m`: a `RECORD_PATH`
/// line gives its first value the record-path flag (an error where it has not
/// exactly two values); the files of the master effects chain get the plugin
/// flag; for a track, the media of its items get the item flag and the files
/// of the plugins of its first effects chain the plugin flag; anything else
/// leaves `m` as it is. `None` where a source or an effects chain cannot be
/// read.
pub open spec fn project_step<'a>(e: Element<'a>, i: int, m: UsageMap) -> Option<
    Result<UsageMap, Seq<char>>,
> {
    match e.children@[i] {
        Child::Line(items) => {
            if items@.len() >= 1 && items@[0]@ == "RECORD_PATH"@ {
                if items@.len() != 3 {
                    Some(Err(record_path_message(strs_view(items@.skip(1)))))
                } else {
                    Some(Ok(add_usage(m, items@[1]@, RECORD_PATH_BITS)))
                }
            } else {
                Some(Ok(m))
            }
        },
        Child::Element(c) => {
            if c.tag@ == "MASTERFXLIST"@ {
                match spec_fxchain_paths(c) {
                    Some(ps) => Some(Ok(add_all(m, ps, PLUGIN_BITS))),
                    None => None,
                }
            } else if c.tag@ == "TRACK"@ {
                match spec_track_item_paths(c) {
                    Some(ips) => {
                        let m2 = add_all(m, ips, ITEM_BITS);
                        match first_tagged(c.children@, "FXCHAIN"@, 0) {
                            Some(fx) => match spec_fxchain_paths(fx) {
                                Some(ps) => Some(Ok(add_all(m2, ps, PLUGIN_BITS))),
                                None => None,
                            },
                            None => Some(Ok(m2)),
                        }
                    },
                    None => None,
                }
            } else {
                Some(Ok(m))
            }
        },
    }
}

/// Reading the children `e.children[i..]` of a project, one after the other,
/// into the usages `m` (see [`project_step`]); the first error ends the
/// reading.
pub open spec fn project_from<'a>(e: Element<'a>, i: int, m: UsageMap) -> Option<
    Result<UsageMap, Seq<char>>,
>
    decreases e.children@.len() - i,
{
    if i < 0 || i >= e.children@.len() {
        Some(Ok(m))
    } else {
        match project_step(e, i, m) {
            Some(Ok(m2)) => project_from(e, i + 1, m2),
            other => other,
        }
    }
}

/// What reading a `<REAPER_PROJECT>` element gives: the project's date, as
/// seconds since the Unix epoch (its third attribute), and how it uses each
/// file (see [`project_from`]); or the message of the first error: another
/// tag, a missing, malformed or out-of-range date, a bad `RECORD_PATH` line.
/// `None` where a source or an effects chain cannot be read.
pub open spec fn spec_parse_project<'a>(e: Element<'a>) -> Option<
    Result<(i64, UsageMap), Seq<char>>,
> {
    let attr_text = debug_text_of_strs(strs_view(e.attr@));
    if e.tag@ != "REAPER_PROJECT"@ {
        Some(Err("expected project tag: "@ + e.tag@))
    } else if e.attr@.len() < 3 {
        Some(Err("can't find project date: "@ + attr_text))
    } else {
        match spec_parse_i64(e.attr@[2]@) {
            None => Some(Err("project date is malformed: "@ + attr_text)),
            Some(n) => {
                if !(TIMESTAMP_MIN_SECOND <= n <= TIMESTAMP_MAX_SECOND) {
                    Some(Err("invalid project date: "@ + attr_text))
                } else {
                    match project_from(e, 0, Map::empty()) {
                        Some(Ok(m)) => Some(Ok((n, m))),
                        Some(Err(msg)) => Some(Err(msg)),
                        None => None,
                    }
                }
            },
        }
    }
}

/// A scanned project: when it was saved, and how it uses each file.
pub struct Project {
    /// When the project was saved: the instant `date_second` seconds after
    /// the Unix epoch (see [`timestamp_of_second`]).
    pub date: Timestamp,
    /// The date, as seconds since the Unix epoch.
    pub date_second: i64,
    pub usages: PathUsages,
}

/// Whether `r` is the outcome `s` of [`spec_parse_project`]: an error with
/// its message, or a project with the date and the usages given.
pub open spec fn parse_result_matches(
    r: Result<Project, String>,
    s: Result<(i64, UsageMap), Seq<char>>,
) -> bool {
    match (r, s) {
        (Ok(p), Ok((n, m))) => p.date_second == n && p.date == timestamp_of_second(n) && p.usages@ == m,
        (Err(msg), Err(t)) => msg@ == t,
        _ => false,
    }
}

/// `prefix` followed by `rest`.
fn message(prefix: &str, rest: &str) -> (r: String)
    ensures
        r@ == prefix@ + rest@,
{
    let mut m = prefix.to_owned();
    m.append(rest);
    m
}

/// Adds the flags of `flag` to those of each of `paths`.
fn add_paths(usages: &mut PathUsages, paths: &[String], flag: Usages)
    ensures
        final(usages)@ == add_all(old(usages)@, strings_view(paths@), flag@),
{
    let ghost m0 = usages@;
    let ghost pv = strings_view(paths@);
    let mut k: usize = 0;
    while k < paths.len()
        invariant
            k <= paths@.len(),
            pv == strings_view(paths@),
            usages@ == add_all(m0, pv.take(k as int), flag@),
        decreases paths@.len() - k,
    {
        proof {
            assert(pv.take(k + 1).drop_last() =~= pv.take(k as int));
        }
        usages.add(paths[k].as_str(), flag);
        k = k + 1;
    }
    proof {
        assert(pv.take(paths@.len() as int) =~= pv);
    }
}

/// Adds the flags of `flag` to those of each of `paths`.
fn add_str_paths(usages: &mut PathUsages, paths: &[&str], flag: Usages)
    ensures
        final(usages)@ == add_all(old(usages)@, strs_view(paths@), flag@),
{
    let ghost m0 = usages@;
    let ghost pv = strs_view(paths@);
    let mut k: usize = 0;
    while k < paths.len()
        invariant
            k <= paths@.len(),
            pv == strs_view(paths@),
            usages@ == add_all(m0, pv.take(k as int), flag@),
        decreases paths@.len() - k,
    {
        proof {
            assert(pv.take(k + 1).drop_last() =~= pv.take(k as int));
        }
        usages.add(paths[k], flag);
        k = k + 1;
    }
    proof {
        assert(pv.take(paths@.len() as int) =~= pv);
    }
}

/// The first sub-element tagged `tag` among `children`.
fn find_tagged<'a>(children: &'a Vec<Child<'a>>, tag: &str) -> (r: Option<&'a Element<'a>>)
    ensures
        match r {
            Some(c) => first_tagged(children@, tag@, 0) == Some(*c),
            None => first_tagged(children@, tag@, 0) is None,
        },
{
    let mut i: usize = 0;
    while i < children.len()
        invariant
            i <= children@.len(),
            first_tagged(children@, tag@, 0) == first_tagged(children@, tag@, i as int),
        decreases children@.len() - i,
    {
        if let Child::Element(c) = &children[i] {
            if str_eq(c.tag, tag) {
                return Some(c);
            }
        }
        i = i + 1;
    }
    None
}

/// The values of a line after its first one.
fn rest_of_line<'a>(items: &Vec<&'a str>) -> (r: Vec<&'a str>)
    requires
        items@.len() >= 1,
    ensures
        r@ == items@.skip(1),
{
    let mut out: Vec<&'a str> = Vec::new();
    let mut k: usize = 1;
    while k < items.len()
        invariant
            1 <= k <= items@.len(),
            out@ == items@.subrange(1, k as int),
        decreases items@.len() - k,
    {
        out.push(items[k]);
        proof {
            assert(items@.subrange(1, k + 1) =~= items@.subrange(1, k as int).push(items@[k as int]));
        }
        k = k + 1;
    }
    assert(items@.subrange(1, items@.len() as int) =~= items@.skip(1));
    out
}

/// Reads a project element, or `None` where a source or an effects chain
/// cannot be read (see [`spec_parse_project`]).
fn read_project(e: &Element) -> (r: Option<Result<Project, String>>)
    ensures
        match r {
            Some(res) => spec_parse_project(*e) matches Some(s) && parse_result_matches(res, s),
            None => spec_parse_project(*e) is None,
        },
{
    if !str_eq(e.tag, "REAPER_PROJECT") {
        return Some(Err(message("expected project tag: ", e.tag)));
    }
    if e.attr.len() < 3 {
        let text = debug_strs(e.attr.as_slice());
        return Some(Err(message("can't find project date: ", text.as_str())));
    }
    let n = match parse_i64(e.attr[2]) {
        Some(n) => n,
        None => {
            let text = debug_strs(e.attr.as_slice());
            return Some(Err(message("project date is malformed: ", text.as_str())));
        },
    };
    let date = match timestamp_from_second(n) {
        Some(t) => t,
        None => {
            let text = debug_strs(e.attr.as_slice());
            return Some(Err(message("invalid project date: ", text.as_str())));
        },
    };
    let mut usages = PathUsages::new();
    let mut i: usize = 0;
    while i < e.children.len()
        invariant
            i <= e.children@.len(),
            e.tag@ == "REAPER_PROJECT"@,
            e.attr@.len() >= 3,
            spec_parse_i64(e.attr@[2]@) == Some(n),
            TIMESTAMP_MIN_SECOND <= n <= TIMESTAMP_MAX_SECOND,
            project_from(*e, 0, Map::empty()) == project_from(*e, i as int, usages@),
        decreases e.children@.len() - i,
    {
        match &e.children[i] {
            Child::Line(items) => {
                if items.len() >= 1 && str_eq(items[0], "RECORD_PATH") {
                    if items.len() != 3 {
                        let vals = rest_of_line(items);
                        let text = debug_strs(vals.as_slice());
                        assert(vals@.map_values(|x: &str| x@) == strs_view(items@.skip(1)));
                        return Some(
                            Err(
                                message(
                                    "expected project record path to have exactly 2 values: ",
                                    text.as_str(),
                                ),
                            ),
                        );
                    }
                    usages.add(items[1], Usages::record_path());
                }
            },
            Child::Element(child) => {
                if str_eq(child.tag, "MASTERFXLIST") {
                    match find_fxchain_paths(child) {
                        Some(ps) => {
                            let v = ps.into_vec();
                            add_paths(&mut usages, v.as_slice(), Usages::plugin());
                        },
                        None => {
                            return None;
                        },
                    }
                } else if str_eq(child.tag, "TRACK") {
                    match try_track_item_paths(child) {
                        Some(ips) => {
                            add_str_paths(&mut usages, ips.as_slice(), Usages::item());
                        },
                        None => {
                            return None;
                        },
                    }
                    if let Some(fx) = find_tagged(&child.children, "FXCHAIN") {
                        match find_fxchain_paths(fx) {
                            Some(ps) => {
                                let v = ps.into_vec();
                                add_paths(&mut usages, v.as_slice(), Usages::plugin());
                            },
                            None => {
                                return None;
                            },
                        }
                    }
                }
            },
        }
        i = i + 1;
    }
    Some(Ok(Project { date, date_second: n, usages }))
}

/// Reads a `<REAPER_PROJECT>` element: its date and how it uses each file,
/// or the message of the first error (see [`spec_parse_project`]).
pub fn parse_project(e: &Element) -> (r: Result<Project, String>)
    requires
        spec_parse_project(*e) is Some,
    ensures
        parse_result_matches(r, spec_parse_project(*e).unwrap()),
{
    try_parse_project(e).unwrap()
}

/// Reads a `<REAPER_PROJECT>` element, or gives `None` where a source or an
/// effects chain of it cannot be read (see [`spec_parse_project`]).
pub fn try_parse_project(e: &Element) -> (r: Option<Result<Project, String>>)
    ensures
        match r {
            Some(res) => spec_parse_project(*e) matches Some(s) && parse_result_matches(res, s),
            None => spec_parse_project(*e) is None,
        },
{
    read_project(e)
}

/// Whether the project element `e` reads without error.
pub open spec fn parses_ok<'a>(e: Element<'a>) -> bool {
    spec_parse_project(e) matches Some(Ok(_))
}

/// How the project element `e` uses each file, where it reads without
/// error.
pub open spec fn parsed_usages<'a>(e: Element<'a>) -> UsageMap {
    match spec_parse_project(e) {
        Some(Ok((_, m))) => m,
        _ => Map::empty(),
    }
}

/// Recording the uses of several paths keeps every flag already recorded,
/// and the text of every path already recorded.
proof fn lemma_add_all_keeps(m: UsageMap, ps: Seq<Seq<char>>, f: u8, k: PathKey)
    requires
        m.contains_key(k),
    ensures
        add_all(m, ps, f).contains_key(k),
        has_flags(add_all(m, ps, f)[k].1, m[k].1),
        add_all(m, ps, f)[k].0 == m[k].0,
    decreases ps.len(),
{
    if ps.len() == 0 {
        lemma_contains_refl(m[k].1);
    } else {
        lemma_add_all_keeps(m, ps.drop_last(), f, k);
        let m1 = add_all(m, ps.drop_last(), f);
        lemma_add_usage(m1, ps.last(), f, k);
        if k != path_key(ps.last()) {
            lemma_contains_refl(m1[k].1);
        }
        lemma_contains_trans(add_all(m, ps, f)[k].1, m1[k].1, m[k].1);
    }
}

/// Recording the uses of several paths gives each of them the flags.
proof fn lemma_add_all_adds(m: UsageMap, ps: Seq<Seq<char>>, f: u8, j: int)
    requires
        0 <= j < ps.len(),
    ensures
        add_all(m, ps, f).contains_key(path_key(ps[j])),
        has_flags(add_all(m, ps, f)[path_key(ps[j])].1, f),
    decreases ps.len(),
{
    let m1 = add_all(m, ps.drop_last(), f);
    lemma_add_usage(m1, ps.last(), f, path_key(ps[j]));
    if j < ps.len() - 1 && path_key(ps[j]) != path_key(ps.last()) {
        lemma_add_all_adds(m, ps.drop_last(), f, j);
        assert(ps.drop_last()[j] == ps[j]);
    }
}

/// No path of `m` has the metronome flag.
pub open spec fn without_metronome(m: UsageMap) -> bool {
    forall|k: PathKey| #[trigger] m.contains_key(k) ==> !has_flags(m[k].1, METRONOME_BITS)
}

/// Recording a use with flags other than the metronome flag keeps the
/// metronome flag out.
proof fn lemma_add_without_metronome(m: UsageMap, p: Seq<char>, f: u8)
    requires
        without_metronome(m),
        !has_flags(f, METRONOME_BITS),
    ensures
        without_metronome(add_usage(m, p, f)),
{
    let key = path_key(p);
    if m.contains_key(key) {
        assert(!has_flags(m[key].1, METRONOME_BITS));
        lemma_union_without_metronome(m[key].1, f);
    }
}

/// Recording uses with flags other than the metronome flag keeps the
/// metronome flag out.
proof fn lemma_add_all_without_metronome(m: UsageMap, ps: Seq<Seq<char>>, f: u8)
    requires
        without_metronome(m),
        !has_flags(f, METRONOME_BITS),
    ensures
        without_metronome(add_all(m, ps, f)),
    decreases ps.len(),
{
    if ps.len() > 0 {
        lemma_add_all_without_metronome(m, ps.drop_last(), f);
        lemma_add_without_metronome(add_all(m, ps.drop_last(), f), ps.last(), f);
    }
}

/// Reading one child of a project keeps every flag already recorded, and
/// never records the metronome flag.
proof fn lemma_step_keeps<'a>(e: Element<'a>, i: int, m: UsageMap, k: PathKey)
    requires
        0 <= i < e.children@.len(),
        project_step(e, i, m) matches Some(Ok(_)),
    ensures
        project_step(e, i, m) matches Some(Ok(m2)) && (m.contains_key(k) ==> m2.contains_key(k)
            && has_flags(m2[k].1, m[k].1)) && (without_metronome(m) ==> without_metronome(m2)),
{
    lemma_scan_flags_not_metronome();
    match e.children@[i] {
        Child::Line(items) => {
            if items@.len() >= 1 && items@[0]@ == "RECORD_PATH"@ {
                lemma_add_usage(m, items@[1]@, RECORD_PATH_BITS, k);
                if m.contains_key(k) && k != path_key(items@[1]@) {
                    lemma_contains_refl(m[k].1);
                }
                if without_metronome(m) {
                    lemma_add_without_metronome(m, items@[1]@, RECORD_PATH_BITS);
                }
            } else if m.contains_key(k) {
                lemma_contains_refl(m[k].1);
            }
        },
        Child::Element(c) => {
            if c.tag@ == "MASTERFXLIST"@ {
                let ps = spec_fxchain_paths(c).unwrap();
                if m.contains_key(k) {
                    lemma_add_all_keeps(m, ps, PLUGIN_BITS, k);
                }
                if without_metronome(m) {
                    lemma_add_all_without_metronome(m, ps, PLUGIN_BITS);
                }
            } else if c.tag@ == "TRACK"@ {
                let ips = spec_track_item_paths(c).unwrap();
                let m2 = add_all(m, ips, ITEM_BITS);
                if m.contains_key(k) {
                    lemma_add_all_keeps(m, ips, ITEM_BITS, k);
                }
                if without_metronome(m) {
                    lemma_add_all_without_metronome(m, ips, ITEM_BITS);
                }
                if let Some(fx) = first_tagged(c.children@, "FXCHAIN"@, 0) {
                    let ps = spec_fxchain_paths(fx).unwrap();
                    if m.contains_key(k) {
                        lemma_add_all_keeps(m2, ps, PLUGIN_BITS, k);
                        lemma_contains_trans(add_all(m2, ps, PLUGIN_BITS)[k].1, m2[k].1, m[k].1);
                    }
                    if without_metronome(m) {
                        lemma_add_all_without_metronome(m2, ps, PLUGIN_BITS);
                    }
                }
            } else if m.contains_key(k) {
                lemma_contains_refl(m[k].1);
            }
        },
    }
}

/// Reading the rest of a project keeps every flag already recorded, and
/// never records the metronome flag.
proof fn lemma_from_keeps<'a>(e: Element<'a>, i: int, m: UsageMap, k: PathKey)
    requires
        0 <= i,
        project_from(e, i, m) matches Some(Ok(_)),
    ensures
        project_from(e, i, m) matches Some(Ok(mf)) && (m.contains_key(k) ==> mf.contains_key(k)
            && has_flags(mf[k].1, m[k].1)) && (without_metronome(m) ==> without_metronome(mf)),
    decreases e.children@.len() - i,
{
    if i >= e.children@.len() {
        if m.contains_key(k) {
            lemma_contains_refl(m[k].1);
        }
    } else {
        lemma_step_keeps(e, i, m, k);
        let m2 = project_step(e, i, m)->0->Ok_0;
        lemma_from_keeps(e, i + 1, m2, k);
        let mf = project_from(e, i, m)->0->Ok_0;
        if m.contains_key(k) {
            lemma_contains_trans(mf[k].1, m2[k].1, m[k].1);
        }
    }
}

/// Reading a project from child `j` on reaches child `i` with some usages,
/// and reading on from there gives the same.
proof fn lemma_from_reaches<'a>(e: Element<'a>, j: int, m: UsageMap, i: int) -> (mi: UsageMap)
    requires
        0 <= j <= i <= e.children@.len(),
        project_from(e, j, m) matches Some(Ok(_)),
    ensures
        project_from(e, i, mi) == project_from(e, j, m),
    decreases i - j,
{
    if j == i {
        m
    } else {
        let m2 = project_step(e, j, m)->0->Ok_0;
        lemma_from_reaches(e, j + 1, m2, i)
    }
}

/// Child `i` of a project that reads without error is read from some usages
/// into the usages `m2`, and the project's final usages hold every flag of
/// `m2`.
proof fn lemma_child_read<'a>(e: Element<'a>, i: int, k: PathKey) -> (m2: UsageMap)
    requires
        parses_ok(e),
        0 <= i < e.children@.len(),
    ensures
        exists|mi: UsageMap| project_step(e, i, mi) == Some(Ok::<_, Seq<char>>(m2)),
        m2.contains_key(k) ==> parsed_usages(e).contains_key(k) && has_flags(
            parsed_usages(e)[k].1,
            m2[k].1,
        ),
{
    let mi = lemma_from_reaches(e, 0, Map::empty(), i);
    let m2 = project_step(e, i, mi)->0->Ok_0;
    lemma_from_keeps(e, i + 1, m2, k);
    m2
}

/// In a project that reads without error, every `RECORD_PATH` line has two
/// values, and the path of the first of them is recorded with the
/// record-path flag.
pub proof fn lemma_record_path_recorded<'a>(e: Element<'a>, i: int)
    requires
        parses_ok(e),
        0 <= i < e.children@.len(),
        e.children@[i] matches Child::Line(items) && items@.len() >= 1 && items@[0]@
            == "RECORD_PATH"@,
    ensures
        e.children@[i] matches Child::Line(items) && items@.len() == 3 && parsed_usages(
            e,
        ).contains_key(path_key(items@[1]@)) && has_flags(
            parsed_usages(e)[path_key(items@[1]@)].1,
            RECORD_PATH_BITS,
        ),
{
    let items = e.children@[i]->Line_0;
    let k = path_key(items@[1]@);
    let m2 = lemma_child_read(e, i, k);
    let mi = choose|mi: UsageMap| project_step(e, i, mi) == Some(Ok::<_, Seq<char>>(m2));
    lemma_add_usage(mi, items@[1]@, RECORD_PATH_BITS, k);
    lemma_contains_trans(parsed_usages(e)[k].1, m2[k].1, RECORD_PATH_BITS);
}

/// In a project that reads without error, the media of the items of each
/// track are recorded with the item flag.
pub proof fn lemma_track_items_recorded<'a>(e: Element<'a>, i: int, j: int)
    requires
        parses_ok(e),
        0 <= i < e.children@.len(),
        e.children@[i] matches Child::Element(c) && c.tag@ == "TRACK"@,
    ensures
        e.children@[i] matches Child::Element(c) && spec_track_item_paths(c) matches Some(ips) && (0
            <= j < ips.len() ==> parsed_usages(e).contains_key(path_key(ips[j])) && has_flags(
            parsed_usages(e)[path_key(ips[j])].1,
            ITEM_BITS,
        )),
{
    let c = e.children@[i]->Element_0;
    reveal_strlit("TRACK");
    reveal_strlit("MASTERFXLIST");
    assert("TRACK"@.len() == 5);
    assert("MASTERFXLIST"@.len() == 12);
    assert("TRACK"@ != "MASTERFXLIST"@);
    let m0 = lemma_child_read(e, i, Seq::empty());
    let mi0 = choose|mi: UsageMap| project_step(e, i, mi) == Some(Ok::<_, Seq<char>>(m0));
    assert(spec_track_item_paths(c) is Some);
    let ips = spec_track_item_paths(c).unwrap();
    if 0 <= j < ips.len() {
        let k = path_key(ips[j]);
        let m2 = lemma_child_read(e, i, k);
        let mi = choose|mi: UsageMap| project_step(e, i, mi) == Some(Ok::<_, Seq<char>>(m2));
        let ma = add_all(mi, ips, ITEM_BITS);
        lemma_add_all_adds(mi, ips, ITEM_BITS, j);
        if let Some(fx) = first_tagged(c.children@, "FXCHAIN"@, 0) {
            let ps = spec_fxchain_paths(fx).unwrap();
            assert(m2 == add_all(ma, ps, PLUGIN_BITS));
            lemma_add_all_keeps(ma, ps, PLUGIN_BITS, k);
            lemma_contains_trans(m2[k].1, ma[k].1, ITEM_BITS);
        } else {
            assert(m2 == ma);
        }
        lemma_contains_trans(parsed_usages(e)[k].1, m2[k].1, ITEM_BITS);
    }
}

/// In a project that reads without error, the files that the plugins of
/// the master effects chain load are recorded with the plugin flag.
pub proof fn lemma_master_fx_recorded<'a>(e: Element<'a>, i: int, j: int)
    requires
        parses_ok(e),
        0 <= i < e.children@.len(),
        e.children@[i] matches Child::Element(c) && c.tag@ == "MASTERFXLIST"@,
    ensures
        e.children@[i] matches Child::Element(c) && spec_fxchain_paths(c) matches Some(ps) && (0
            <= j < ps.len() ==> parsed_usages(e).contains_key(path_key(ps[j])) && has_flags(
            parsed_usages(e)[path_key(ps[j])].1,
            PLUGIN_BITS,
        )),
{
    let c = e.children@[i]->Element_0;
    let m0 = lemma_child_read(e, i, Seq::empty());
    let mi0 = choose|mi: UsageMap| project_step(e, i, mi) == Some(Ok::<_, Seq<char>>(m0));
    assert(spec_fxchain_paths(c) is Some);
    let ps = spec_fxchain_paths(c).unwrap();
    if 0 <= j < ps.len() {
        let k = path_key(ps[j]);
        let m2 = lemma_child_read(e, i, k);
        let mi = choose|mi: UsageMap| project_step(e, i, mi) == Some(Ok::<_, Seq<char>>(m2));
        lemma_add_all_adds(mi, ps, PLUGIN_BITS, j);
        lemma_contains_trans(parsed_usages(e)[k].1, m2[k].1, PLUGIN_BITS);
    }
}

/// Reading a project never records a file as used by the metronome.
pub proof fn lemma_no_metronome_usage<'a>(e: Element<'a>, k: PathKey)
    requires
        parses_ok(e),
        parsed_usages(e).contains_key(k),
    ensures
        !has_flags(parsed_usages(e)[k].1, METRONOME_BITS),
{
    lemma_from_keeps(e, 0, Map::empty(), k);
}

/// The `<SOURCE>` sub-element at `item.children[j]`, if that child is one.
pub open spec fn source_child<'a>(item: Element<'a>, j: int) -> Option<Element<'a>> {
    if 0 <= j < item.children@.len() {
        match item.children@[j] {
            Child::Element(c) => if c.tag@ == "SOURCE"@ {
                Some(c)
            } else {
                None
            },
            Child::Line(_) => None,
        }
    } else {
        None
    }
}

/// The `<ITEM>` sub-element at `track.children[i]`, if that child is one.
pub open spec fn item_child<'a>(track: Element<'a>, i: int) -> Option<Element<'a>> {
    if 0 <= i < track.children@.len() {
        match track.children@[i] {
            Child::Element(c) => if c.tag@ == "ITEM"@ {
                Some(c)
            } else {
                None
            },
            Child::Line(_) => None,
        }
    } else {
        None
    }
}

/// Whether `src` is a source whose media file is `q`.
pub open spec fn source_names(src: Option<Element>, q: Seq<char>) -> bool {
    src matches Some(s) && spec_source_path(s) == Some(Some(q))
}

/// Whether the source `k` of the item `n` of `track` has the file `q`.
pub open spec fn track_source_names<'a>(track: Element<'a>, n: int, k: int, q: Seq<char>) -> bool {
    match item_child(track, n) {
        Some(item) => source_names(source_child(item, k), q),
        None => false,
    }
}

/// Reading the sources of an item from child `j` on: what was read before
/// stays in front, the file of every later source is among the paths, and
/// every path was read before or is the file of a later source.
proof fn lemma_item_sources<'a>(item: Element<'a>, j: int, acc: Seq<Seq<char>>)
    requires
        0 <= j <= item.children@.len(),
        item_sources_from(item, j, acc) is Some,
    ensures
        item_sources_from(item, j, acc) matches Some(ps) && {
            &&& acc.len() <= ps.len()
            &&& ps.take(acc.len() as int) == acc
            &&& forall|k: int, q: Seq<char>|
                j <= k < item.children@.len() && #[trigger] source_names(source_child(item, k), q)
                    ==> ps.contains(q)
            &&& forall|q: Seq<char>|
                #[trigger] ps.contains(q) ==> acc.contains(q) || exists|k: int|
                    j <= k < item.children@.len() && #[trigger] source_names(source_child(item, k), q)
        },
    decreases item.children@.len() - j,
{
    if j < item.children@.len() {
        let next = match source_child(item, j) {
            Some(src) => match spec_source_path(src) {
                Some(Some(p)) => acc.push(p),
                _ => acc,
            },
            None => acc,
        };
        assert(item_sources_from(item, j, acc) == item_sources_from(item, j + 1, next));
        lemma_item_sources(item, j + 1, next);
        let ps = item_sources_from(item, j, acc).unwrap();
        assert(ps.take(acc.len() as int) =~= acc) by {
            assert(next.take(acc.len() as int) =~= acc);
            assert(ps.take(acc.len() as int) =~= ps.take(next.len() as int).take(acc.len() as int));
        }
        assert forall|k: int, q: Seq<char>|
            j <= k < item.children@.len() && #[trigger] source_names(source_child(item, k), q)
                implies ps.contains(q) by {
            if k == j {
                assert(next[acc.len() as int] == q);
                assert(ps[acc.len() as int] == q);
            }
        }
        assert forall|q: Seq<char>| #[trigger] ps.contains(q) implies acc.contains(q) || exists|
            k: int,
        | j <= k < item.children@.len() && #[trigger] source_names(source_child(item, k), q) by {
            if next.contains(q) && !acc.contains(q) {
                let x = choose|x: int| 0 <= x < next.len() && next[x] == q;
                if x < acc.len() {
                    assert(acc[x] == q);
                } else {
                    assert(source_names(source_child(item, j), q));
                }
            }
        }
    } else {
        assert(acc.take(acc.len() as int) =~= acc);
    }
}

/// Reading the items of a track from child `i` on (see
/// [`lemma_item_sources`]).
proof fn lemma_track_items<'a>(track: Element<'a>, i: int, acc: Seq<Seq<char>>)
    requires
        0 <= i <= track.children@.len(),
        track_items_from(track, i, acc) is Some,
    ensures
        track_items_from(track, i, acc) matches Some(ps) && {
            &&& acc.len() <= ps.len()
            &&& ps.take(acc.len() as int) == acc
            &&& forall|n: int, k: int, q: Seq<char>|
                i <= n < track.children@.len() && #[trigger] track_source_names(track, n, k, q)
                    ==> ps.contains(q)
            &&& forall|q: Seq<char>|
                #[trigger] ps.contains(q) ==> acc.contains(q) || exists|n: int, k: int|
                    i <= n < track.children@.len() && #[trigger] track_source_names(track, n, k, q)
        },
    decreases track.children@.len() - i,
{
    if i < track.children@.len() {
        let next = match item_child(track, i) {
            Some(item) => item_sources_from(item, 0, acc).unwrap(),
            None => acc,
        };
        assert(track_items_from(track, i, acc) == track_items_from(track, i + 1, next));
        lemma_track_items(track, i + 1, next);
        let ps = track_items_from(track, i, acc).unwrap();
        if let Some(item) = item_child(track, i) {
            lemma_item_sources(item, 0, acc);
        } else {
            assert(next =~= acc);
        }
        assert(ps.take(acc.len() as int) =~= acc) by {
            assert(next.take(acc.len() as int) =~= acc);
            assert(ps.take(acc.len() as int) =~= ps.take(next.len() as int).take(acc.len() as int));
        }
        assert forall|n: int, k: int, q: Seq<char>|
            i <= n < track.children@.len() && #[trigger] track_source_names(track, n, k, q) implies ps.contains(
                q,
            ) by {
            if n == i {
                let item = item_child(track, i).unwrap();
                if 0 <= k < item.children@.len() {
                    assert(next.contains(q));
                    let x = choose|x: int| 0 <= x < next.len() && next[x] == q;
                    assert(ps[x] == q);
                }
            }
        }
        assert forall|q: Seq<char>| #[trigger] ps.contains(q) implies acc.contains(q) || exists|
            n: int,
            k: int,
        | i <= n < track.children@.len() && #[trigger] track_source_names(track, n, k, q) by {
            if next.contains(q) && !acc.contains(q) {
                let item = item_child(track, i).unwrap();
                let k = choose|k: int|
                    0 <= k < item.children@.len() && #[trigger] source_names(source_child(item, k), q);
                assert(track_source_names(track, i, k, q));
            }
        }
    } else {
        assert(acc.take(acc.len() as int) =~= acc);
    }
}

/// The media of a track are exactly the files of the sources of its items,
/// every take of every item: where they can be read, the file of each
/// `<SOURCE>` of each `<ITEM>` of the track is one of its paths, and each of
/// its paths is the file of such a source.
pub proof fn lemma_track_items_all_sources<'a>(track: Element<'a>)
    requires
        spec_track_item_paths(track) is Some,
    ensures
        spec_track_item_paths(track) matches Some(ps) && {
            &&& forall|n: int, k: int, q: Seq<char>|
                #[trigger] track_source_names(track, n, k, q) ==> ps.contains(q)
            &&& forall|q: Seq<char>|
                #[trigger] ps.contains(q) ==> exists|n: int, k: int|
                    #[trigger] track_source_names(track, n, k, q)
        },
{
    lemma_track_items(track, 0, Seq::empty());
}

/// The paths `a` followed by the paths `b`: `None` where either is.
pub open spec fn join_paths(a: Option<Seq<Seq<char>>>, b: Option<Seq<Seq<char>>>) -> Option<
    Seq<Seq<char>>,
> {
    match a {
        Some(x) => prepend_some(x, b),
        None => None,
    }
}

/// Reading the sources of an item onto paths already read puts those paths
/// in front.
proof fn lemma_item_acc<'a>(item: Element<'a>, j: int, acc: Seq<Seq<char>>)
    ensures
        item_sources_from(item, j, acc) == prepend_some(acc, item_sources_from(item, j, Seq::empty())),
    decreases item.children@.len() - j,
{
    if 0 <= j < item.children@.len() {
        lemma_item_acc(item, j + 1, acc);
        if let Child::Element(c) = item.children@[j] {
            if c.tag@ == "SOURCE"@ {
                if let Some(Some(p)) = spec_source_path(c) {
                    lemma_item_acc(item, j + 1, acc.push(p));
                    lemma_item_acc(item, j + 1, seq![p]);
                    lemma_prepend_assoc(acc, seq![p], item_sources_from(item, j + 1, Seq::empty()));
                    assert(acc + seq![p] =~= acc.push(p));
                    assert(Seq::<Seq<char>>::empty().push(p) =~= seq![p]);
                }
            }
        }
    } else {
        assert(acc + Seq::<Seq<char>>::empty() =~= acc);
    }
}

/// Reading the items of a track onto paths already read puts those paths in
/// front.
proof fn lemma_track_acc<'a>(t: Element<'a>, i: int, acc: Seq<Seq<char>>)
    ensures
        track_items_from(t, i, acc) == prepend_some(acc, track_items_from(t, i, Seq::empty())),
    decreases t.children@.len() - i,
{
    if 0 <= i < t.children@.len() {
        if let Child::Element(c) = t.children@[i] {
            if c.tag@ == "ITEM"@ {
                lemma_item_acc(c, 0, acc);
                lemma_item_acc(c, 0, Seq::empty());
                if let Some(x) = item_sources_from(c, 0, Seq::empty()) {
                    assert(Seq::<Seq<char>>::empty() + x =~= x);
                    lemma_track_acc(t, i + 1, acc + x);
                    lemma_track_acc(t, i + 1, x);
                    lemma_prepend_assoc(acc, x, track_items_from(t, i + 1, Seq::empty()));
                }
            } else {
                lemma_track_acc(t, i + 1, acc);
            }
        } else {
            lemma_track_acc(t, i + 1, acc);
        }
    } else {
        assert(acc + Seq::<Seq<char>>::empty() =~= acc);
    }
}

/// Reading the second part of the children of a track.
proof fn lemma_track_tail<'a>(t: Element<'a>, t1: Element<'a>, t2: Element<'a>, m: int, acc: Seq<
    Seq<char>,
>)
    requires
        t.children@ == t1.children@ + t2.children@,
        0 <= m <= t2.children@.len(),
    ensures
        track_items_from(t, t1.children@.len() + m, acc) == track_items_from(t2, m, acc),
    decreases t2.children@.len() - m,
{
    if m < t2.children@.len() {
        assert(t.children@[t1.children@.len() + m] == t2.children@[m]);
        if let Child::Element(c) = t2.children@[m] {
            if c.tag@ == "ITEM"@ {
                if let Some(a) = item_sources_from(c, 0, acc) {
                    lemma_track_tail(t, t1, t2, m + 1, a);
                }
            } else {
                lemma_track_tail(t, t1, t2, m + 1, acc);
            }
        } else {
            lemma_track_tail(t, t1, t2, m + 1, acc);
        }
    }
}

/// Reading the children of a track from `i` on, within its first part.
proof fn lemma_track_concat_from<'a>(t: Element<'a>, t1: Element<'a>, t2: Element<'a>, i: int)
    requires
        t.children@ == t1.children@ + t2.children@,
        0 <= i <= t1.children@.len(),
    ensures
        track_items_from(t, i, Seq::empty()) == join_paths(
            track_items_from(t1, i, Seq::empty()),
            track_items_from(t2, 0, Seq::empty()),
        ),
    decreases t1.children@.len() - i,
{
    if i == t1.children@.len() {
        lemma_track_tail(t, t1, t2, 0, Seq::empty());
        if let Some(y) = track_items_from(t2, 0, Seq::empty()) {
            assert(Seq::<Seq<char>>::empty() + y =~= y);
        }
    } else {
        assert(t.children@[i] == t1.children@[i]);
        lemma_track_concat_from(t, t1, t2, i + 1);
        if let Child::Element(c) = t1.children@[i] {
            if c.tag@ == "ITEM"@ {
                if let Some(a) = item_sources_from(c, 0, Seq::empty()) {
                    lemma_track_acc(t, i + 1, a);
                    lemma_track_acc(t1, i + 1, a);
                    if let Some(x) = track_items_from(t1, i + 1, Seq::empty()) {
                        lemma_prepend_assoc(a, x, track_items_from(t2, 0, Seq::empty()));
                    }
                }
            }
        }
    }
}

/// The media of a track whose children are those of `t1` followed by those
/// of `t2` are the media of `t1` followed by those of `t2`; the paths cannot
/// be read exactly where those of `t1` or of `t2` cannot.
pub proof fn lemma_track_items_concat<'a>(t: Element<'a>, t1: Element<'a>, t2: Element<'a>)
    requires
        t.children@ == t1.children@ + t2.children@,
    ensures
        spec_track_item_paths(t) == join_paths(
            spec_track_item_paths(t1),
            spec_track_item_paths(t2),
        ),
{
    lemma_track_concat_from(t, t1, t2, 0);
}

/// Reading the second part of the children of an item.
proof fn lemma_item_tail<'a>(it: Element<'a>, i1: Element<'a>, i2: Element<'a>, m: int, acc: Seq<
    Seq<char>,
>)
    requires
        it.children@ == i1.children@ + i2.children@,
        0 <= m <= i2.children@.len(),
    ensures
        item_sources_from(it, i1.children@.len() + m, acc) == item_sources_from(i2, m, acc),
    decreases i2.children@.len() - m,
{
    if m < i2.children@.len() {
        assert(it.children@[i1.children@.len() + m] == i2.children@[m]);
        if let Child::Element(c) = i2.children@[m] {
            if c.tag@ == "SOURCE"@ {
                if let Some(Some(p)) = spec_source_path(c) {
                    lemma_item_tail(it, i1, i2, m + 1, acc.push(p));
                } else {
                    lemma_item_tail(it, i1, i2, m + 1, acc);
                }
            } else {
                lemma_item_tail(it, i1, i2, m + 1, acc);
            }
        } else {
            lemma_item_tail(it, i1, i2, m + 1, acc);
        }
    }
}

/// Reading the children of an item from `j` on, within its first part.
proof fn lemma_item_concat_from<'a>(it: Element<'a>, i1: Element<'a>, i2: Element<'a>, j: int)
    requires
        it.children@ == i1.children@ + i2.children@,
        0 <= j <= i1.children@.len(),
    ensures
        item_sources_from(it, j, Seq::empty()) == join_paths(
            item_sources_from(i1, j, Seq::empty()),
            item_sources_from(i2, 0, Seq::empty()),
        ),
    decreases i1.children@.len() - j,
{
    if j == i1.children@.len() {
        lemma_item_tail(it, i1, i2, 0, Seq::empty());
        if let Some(y) = item_sources_from(i2, 0, Seq::empty()) {
            assert(Seq::<Seq<char>>::empty() + y =~= y);
        }
    } else {
        assert(it.children@[j] == i1.children@[j]);
        lemma_item_concat_from(it, i1, i2, j + 1);
        if let Child::Element(c) = i1.children@[j] {
            if c.tag@ == "SOURCE"@ {
                if let Some(Some(p)) = spec_source_path(c) {
                    let a = seq![p];
                    assert(Seq::<Seq<char>>::empty().push(p) =~= a);
                    lemma_item_acc(it, j + 1, a);
                    lemma_item_acc(i1, j + 1, a);
                    if let Some(x) = item_sources_from(i1, j + 1, Seq::empty()) {
                        lemma_prepend_assoc(a, x, item_sources_from(i2, 0, Seq::empty()));
                    }
                }
            }
        }
    }
}

/// Whether `t` is a track holding one child, the item `it`.
pub open spec fn single_item_track<'a>(t: Element<'a>, it: Element<'a>) -> bool {
    t.children@.len() == 1 && t.children@[0] == Child::Element(it) && it.tag@ == "ITEM"@
}

/// The media of a track with one item whose children are those of `i1`
/// followed by those of `i2` are the media of the track with `i1` as its
/// item followed by those of the track with `i2`: every source of the item
/// counts, in order.
pub proof fn lemma_item_sources_concat<'a>(
    t: Element<'a>,
    it: Element<'a>,
    t1: Element<'a>,
    i1: Element<'a>,
    t2: Element<'a>,
    i2: Element<'a>,
)
    requires
        single_item_track(t, it),
        single_item_track(t1, i1),
        single_item_track(t2, i2),
        it.children@ == i1.children@ + i2.children@,
    ensures
        spec_track_item_paths(t) == join_paths(
            spec_track_item_paths(t1),
            spec_track_item_paths(t2),
        ),
{
    lemma_item_concat_from(it, i1, i2, 0);
    lemma_item_acc(it, 0, Seq::empty());
    lemma_item_acc(i1, 0, Seq::empty());
    lemma_item_acc(i2, 0, Seq::empty());
    lemma_single_item(t, it);
    lemma_single_item(t1, i1);
    lemma_single_item(t2, i2);
}

/// A track with one item has the media of that item's sources.
proof fn lemma_single_item<'a>(t: Element<'a>, it: Element<'a>)
    requires
        single_item_track(t, it),
    ensures
        spec_track_item_paths(t) == item_sources_from(it, 0, Seq::empty()),
{
    assert(t.children@[0] == Child::Element(it));
    if let Some(x) = item_sources_from(it, 0, Seq::empty()) {
        assert(track_items_from(t, 1, x) == Some(x));
    }
}

/// A track with one item whose one child is a `<SOURCE>` has that source's
/// file as its media: one path where the source has a file, none where it
/// has no file, and the paths cannot be read where the source cannot.
pub proof fn lemma_single_source_track<'a>(t: Element<'a>, it: Element<'a>, src: Element<'a>)
    requires
        single_item_track(t, it),
        it.children@ == seq![Child::Element(src)],
        src.tag@ == "SOURCE"@,
    ensures
        spec_track_item_paths(t) == match spec_source_path(src) {
            Some(Some(p)) => Some(seq![p]),
            Some(None) => Some(Seq::<Seq<char>>::empty()),
            None => None::<Seq<Seq<char>>>,
        },
{
    lemma_single_item(t, it);
    assert(it.children@[0] == Child::Element(src));
    if let Some(Some(p)) = spec_source_path(src) {
        assert(Seq::<Seq<char>>::empty().push(p) =~= seq![p]);
        assert(item_sources_from(it, 1, seq![p]) == Some(seq![p]));
    } else {
        assert(item_sources_from(it, 1, Seq::empty()) == Some(Seq::<Seq<char>>::empty()));
    }
}

/// A track whose one child is no `<ITEM>` has no media.
pub proof fn lemma_non_item_child<'a>(t: Element<'a>, c: Child<'a>)
    requires
        t.children@ == seq![c],
        !(c matches Child::Element(x) && x.tag@ == "ITEM"@),
    ensures
        spec_track_item_paths(t) == Some(Seq::<Seq<char>>::empty()),
{
    assert(t.children@[0] == c);
    assert(track_items_from(t, 1, Seq::empty()) == Some(Seq::<Seq<char>>::empty()));
}

/// A track with one item whose one child is no `<SOURCE>` has no media.
pub proof fn lemma_non_source_child<'a>(t: Element<'a>, it: Element<'a>, c: Child<'a>)
    requires
        single_item_track(t, it),
        it.children@ == seq![c],
        !(c matches Child::Element(x) && x.tag@ == "SOURCE"@),
    ensures
        spec_track_item_paths(t) == Some(Seq::<Seq<char>>::empty()),
{
    lemma_single_item(t, it);
    assert(it.children@[0] == c);
    assert(item_sources_from(it, 1, Seq::empty()) == Some(Seq::<Seq<char>>::empty()));
}

} // verus!
