use vstd::prelude::*;

use super::element::{Child, Element};
use super::path_key::{path_key, PathKey};
use super::plugin::spec_fxchain_paths;
use super::text::spec_parse_i64;
use super::usages::{add_usage, has_flags, UsageMap, ITEM_BITS, PLUGIN_BITS, RECORD_PATH_BITS};
use super::{
    add_all, first_tagged, parsed_usages, parses_ok, project_from, project_step,
    spec_parse_project, spec_track_item_paths, TIMESTAMP_MAX_SECOND, TIMESTAMP_MIN_SECOND,
};

verus! {

broadcast use vstd::seq_lib::group_to_multiset_ensures;

/// One of the flags that reading a project records: item, plugin or
/// record-path.
pub open spec fn is_scan_flag(f: u8) -> bool {
    f == ITEM_BITS || f == PLUGIN_BITS || f == RECORD_PATH_BITS
}

/// The flags made of the record-path flag where `record` holds, the item
/// flag where `item` holds and the plugin flag where `plugin` holds.
pub open spec fn scan_flags(record: bool, item: bool, plugin: bool) -> u8 {
    (if item {
        ITEM_BITS
    } else {
        0u8
    }) | (if plugin {
        PLUGIN_BITS
    } else {
        0u8
    }) | (if record {
        RECORD_PATH_BITS
    } else {
        0u8
    })
}

/// Whether one of `ps` is the path `k`, as paths compare.
pub open spec fn lists_path(ps: Seq<Seq<char>>, k: PathKey) -> bool {
    exists|j: int| 0 <= j < ps.len() && path_key(#[trigger] ps[j]) == k
}

/// Whether `ps` is some list of paths one of which is `k`.
pub open spec fn paths_list(ps: Option<Seq<Seq<char>>>, k: PathKey) -> bool {
    match ps {
        Some(ps) => lists_path(ps, k),
        None => false,
    }
}

/// Whether `c` is a `RECORD_PATH` line.
pub open spec fn is_record_path_line<'a>(c: Child<'a>) -> bool {
    c matches Child::Line(items) && items@.len() >= 1 && items@[0]@ == "RECORD_PATH"@
}

/// Whether `c` is a `RECORD_PATH` line whose values are not two: the line
/// that makes a project an error.
pub open spec fn bad_record_path_line<'a>(c: Child<'a>) -> bool {
    is_record_path_line(c) && c->Line_0@.len() != 3
}

/// Whether the child `c` of a project reads without error, whatever was
/// read before it: it is no bad `RECORD_PATH` line, and the sources and
/// effects chains that it holds, where it is a master effects chain or a
/// track, can be read.
pub open spec fn child_reads<'a>(c: Child<'a>) -> bool {
    match c {
        Child::Line(_) => !bad_record_path_line(c),
        Child::Element(t) => {
            if t.tag@ == "MASTERFXLIST"@ {
                spec_fxchain_paths(t) is Some
            } else if t.tag@ == "TRACK"@ {
                &&& spec_track_item_paths(t) is Some
                &&& match first_tagged(t.children@, "FXCHAIN"@, 0) {
                    Some(fx) => spec_fxchain_paths(fx) is Some,
                    None => true,
                }
            } else {
                true
            }
        },
    }
}

/// Whether reading the child `c` of a project gives the path `k` the flag
/// `flag`: a `RECORD_PATH` line with two values gives its first value the
/// record-path flag; the master effects chain gives the files of its
/// plugins the plugin flag; a track gives the media of its items the item
/// flag and the files of the plugins of its first effects chain the plugin
/// flag.
pub open spec fn child_gives<'a>(c: Child<'a>, k: PathKey, flag: u8) -> bool {
    match c {
        Child::Line(items) => {
            &&& flag == RECORD_PATH_BITS
            &&& is_record_path_line(c)
            &&& items@.len() == 3
            &&& path_key(items@[1]@) == k
        },
        Child::Element(t) => {
            if t.tag@ == "MASTERFXLIST"@ {
                flag == PLUGIN_BITS && paths_list(spec_fxchain_paths(t), k)
            } else if t.tag@ == "TRACK"@ {
                ||| flag == ITEM_BITS && paths_list(spec_track_item_paths(t), k)
                ||| flag == PLUGIN_BITS && match first_tagged(t.children@, "FXCHAIN"@, 0) {
                    Some(fx) => paths_list(spec_fxchain_paths(fx), k),
                    None => false,
                }
            } else {
                false
            }
        },
    }
}

/// Whether some child of the project `e` gives the path `k` the flag `flag`
/// (see [`child_gives`]).
pub open spec fn project_gives<'a>(e: Element<'a>, k: PathKey, flag: u8) -> bool {
    exists|j: int| 0 <= j < e.children@.len() && #[trigger] child_gives(e.children@[j], k, flag)
}

/// Whether some child of `e` from index `i` on gives `k` the flag `flag`.
spec fn gives_from<'a>(e: Element<'a>, i: int, k: PathKey, flag: u8) -> bool {
    exists|j: int| i <= j < e.children@.len() && #[trigger] child_gives(e.children@[j], k, flag)
}

/// Whether `m` holds the path `k` with the flag `f`.
spec fn has_at(m: UsageMap, k: PathKey, f: u8) -> bool {
    m.contains_key(k) && has_flags(m[k].1, f)
}

/// Every path of `m` has some flag, and only flags that reading a project
/// records.
spec fn clean(m: UsageMap) -> bool {
    forall|k: PathKey| #[trigger] m.contains_key(k) ==> m[k].1 & 0xBAu8 == 0 && m[k].1 != 0
}

/// Adding one recorded flag to flags adds that flag and no other.
proof fn lemma_or_flag(x: u8, g: u8, f: u8)
    requires
        is_scan_flag(g),
        is_scan_flag(f),
    ensures
        has_flags(x | g, f) == (has_flags(x, f) || f == g),
        has_flags(g, f) == (f == g),
        x & 0xBAu8 == 0 ==> (x | g) & 0xBAu8 == 0 && (x | g) != 0,
        g & 0xBAu8 == 0 && g != 0,
{
    assert((g == 1 || g == 4 || g == 64) && (f == 1 || f == 4 || f == 64) ==> (((x | g) & f == f)
        == ((x & f == f) || f == g) && ((g & f == f) == (f == g)) && (x & 0xBA == 0 ==> (x | g)
        & 0xBA == 0 && (x | g) != 0) && g & 0xBA == 0 && g != 0)) by (bit_vector);
}

/// Flags with only recorded flags, and some, are the flags that they hold.
proof fn lemma_clean_flags(x: u8)
    requires
        x & 0xBAu8 == 0,
    ensures
        x == scan_flags(
            has_flags(x, RECORD_PATH_BITS),
            has_flags(x, ITEM_BITS),
            has_flags(x, PLUGIN_BITS),
        ),
        x != 0 ==> has_flags(x, RECORD_PATH_BITS) || has_flags(x, ITEM_BITS) || has_flags(
            x,
            PLUGIN_BITS,
        ),
{
    assert(x & 0xBA == 0 ==> x == ((if x & 1 == 1 {
        1u8
    } else {
        0u8
    }) | (if x & 4 == 4 {
        4u8
    } else {
        0u8
    }) | (if x & 64 == 64 {
        64u8
    } else {
        0u8
    })) && (x != 0 ==> x & 64 == 64 || x & 1 == 1 || x & 4 == 4)) by (bit_vector);
}

/// Recording a use of `p` with a recorded flag `g`.
proof fn lemma_add_one(m: UsageMap, p: Seq<char>, g: u8, k: PathKey, f: u8)
    requires
        is_scan_flag(g),
        is_scan_flag(f),
        clean(m),
    ensures
        clean(add_usage(m, p, g)),
        has_at(add_usage(m, p, g), k, f) == (has_at(m, k, f) || (path_key(p) == k && f == g)),
{
    let key = path_key(p);
    let m2 = add_usage(m, p, g);
    if m.contains_key(key) {
        lemma_or_flag(m[key].1, g, f);
    } else {
        lemma_or_flag(0, g, f);
    }
    assert forall|q: PathKey| #[trigger] m2.contains_key(q) implies m2[q].1 & 0xBAu8 == 0
        && m2[q].1 != 0 by {
        if q == key && m.contains_key(key) {
            lemma_or_flag(m[key].1, g, f);
        }
    }
}

/// Recording the uses of `ps` with a recorded flag `g`.
proof fn lemma_add_many(m: UsageMap, ps: Seq<Seq<char>>, g: u8, k: PathKey, f: u8)
    requires
        is_scan_flag(g),
        is_scan_flag(f),
        clean(m),
    ensures
        clean(add_all(m, ps, g)),
        has_at(add_all(m, ps, g), k, f) == (has_at(m, k, f) || (f == g && lists_path(ps, k))),
    decreases ps.len(),
{
    if ps.len() > 0 {
        let init = ps.drop_last();
        lemma_add_many(m, init, g, k, f);
        lemma_add_one(add_all(m, init, g), ps.last(), g, k, f);
        if lists_path(ps, k) {
            let j = choose|j: int| 0 <= j < ps.len() && path_key(#[trigger] ps[j]) == k;
            if j < ps.len() - 1 {
                assert(init[j] == ps[j]);
            }
        }
        if lists_path(init, k) {
            let j = choose|j: int| 0 <= j < init.len() && path_key(#[trigger] init[j]) == k;
            assert(init[j] == ps[j]);
        }
    }
}

/// Reading one child of a project: it reads without error exactly where
/// [`child_reads`] holds, gives an error exactly where it is a bad
/// `RECORD_PATH` line, and, where it reads, adds to the recorded flags
/// exactly those that it gives (see [`child_gives`]).
proof fn lemma_step<'a>(e: Element<'a>, i: int, m: UsageMap, k: PathKey, f: u8)
    requires
        0 <= i < e.children@.len(),
        is_scan_flag(f),
        clean(m),
    ensures
        (project_step(e, i, m) matches Some(Ok(_))) == child_reads(e.children@[i]),
        (project_step(e, i, m) matches Some(Err(_))) == bad_record_path_line(e.children@[i]),
        project_step(e, i, m) matches Some(Ok(m2)) ==> clean(m2) && has_at(m2, k, f) == (has_at(
            m,
            k,
            f,
        ) || child_gives(e.children@[i], k, f)),
{
    reveal_strlit("TRACK");
    reveal_strlit("MASTERFXLIST");
    assert("TRACK"@.len() == 5);
    assert("MASTERFXLIST"@.len() == 12);
    match e.children@[i] {
        Child::Line(items) => {
            if items@.len() >= 1 && items@[0]@ == "RECORD_PATH"@ && items@.len() == 3 {
                lemma_add_one(m, items@[1]@, RECORD_PATH_BITS, k, f);
            }
        },
        Child::Element(c) => {
            if c.tag@ == "MASTERFXLIST"@ {
                if let Some(ps) = spec_fxchain_paths(c) {
                    lemma_add_many(m, ps, PLUGIN_BITS, k, f);
                }
            } else if c.tag@ == "TRACK"@ {
                if let Some(ips) = spec_track_item_paths(c) {
                    lemma_add_many(m, ips, ITEM_BITS, k, f);
                    let m2 = add_all(m, ips, ITEM_BITS);
                    if let Some(fx) = first_tagged(c.children@, "FXCHAIN"@, 0) {
                        if let Some(ps) = spec_fxchain_paths(fx) {
                            lemma_add_many(m2, ps, PLUGIN_BITS, k, f);
                        }
                    }
                }
            }
        },
    }
}

/// Reading the children of a project from index `i` on: it reads without
/// error exactly where each of them reads, and then records exactly the
/// flags that they give.
proof fn lemma_from<'a>(e: Element<'a>, i: int, m: UsageMap, k: PathKey, f: u8)
    requires
        0 <= i <= e.children@.len(),
        is_scan_flag(f),
        clean(m),
    ensures
        (project_from(e, i, m) matches Some(Ok(_))) == (forall|j: int|
            i <= j < e.children@.len() ==> #[trigger] child_reads(e.children@[j])),
        project_from(e, i, m) matches Some(Ok(mf)) ==> clean(mf) && has_at(mf, k, f) == (has_at(
            m,
            k,
            f,
        ) || gives_from(e, i, k, f)),
        project_from(e, i, m) is Some ==> ((project_from(e, i, m) matches Some(Err(_))) == exists|
            j: int,
        | i <= j < e.children@.len() && #[trigger] bad_record_path_line(e.children@[j])),
    decreases e.children@.len() - i,
{
    if i < e.children@.len() {
        lemma_step(e, i, m, k, f);
        if let Some(Ok(m2)) = project_step(e, i, m) {
            lemma_from(e, i + 1, m2, k, f);
            if gives_from(e, i, k, f) {
                let j = choose|j: int|
                    i <= j < e.children@.len() && #[trigger] child_gives(e.children@[j], k, f);
                if j > i {
                    assert(gives_from(e, i + 1, k, f));
                }
            }
            assert(!bad_record_path_line(e.children@[i])) by {
                reveal_strlit("RECORD_PATH");
            }
        } else {
            assert(!child_reads(e.children@[i]));
            if project_step(e, i, m) matches Some(Err(_)) {
                assert(bad_record_path_line(e.children@[i]));
            }
        }
    }
}

/// Where a project reads without error, how it uses each file is exactly
/// what its children give: a path is recorded exactly when some
/// `RECORD_PATH` line, item or plugin of it names the path, as paths
/// compare, and its flags are exactly the record-path flag where a
/// `RECORD_PATH` line names it, the item flag where the media of an item
/// does, and the plugin flag where a file of a plugin of the master effects
/// chain or of a track's first effects chain does.
pub proof fn lemma_usages_exact<'a>(e: Element<'a>, k: PathKey)
    requires
        parses_ok(e),
    ensures
        parsed_usages(e).contains_key(k) <==> (project_gives(e, k, RECORD_PATH_BITS)
            || project_gives(e, k, ITEM_BITS) || project_gives(e, k, PLUGIN_BITS)),
        parsed_usages(e).contains_key(k) ==> parsed_usages(e)[k].1 == scan_flags(
            project_gives(e, k, RECORD_PATH_BITS),
            project_gives(e, k, ITEM_BITS),
            project_gives(e, k, PLUGIN_BITS),
        ),
{
    let m0 = Map::<PathKey, (Seq<char>, u8)>::empty();
    lemma_from(e, 0, m0, k, RECORD_PATH_BITS);
    lemma_from(e, 0, m0, k, ITEM_BITS);
    lemma_from(e, 0, m0, k, PLUGIN_BITS);
    let m = parsed_usages(e);
    assert(project_gives(e, k, RECORD_PATH_BITS) == gives_from(e, 0, k, RECORD_PATH_BITS));
    assert(project_gives(e, k, ITEM_BITS) == gives_from(e, 0, k, ITEM_BITS));
    assert(project_gives(e, k, PLUGIN_BITS) == gives_from(e, 0, k, PLUGIN_BITS));
    if m.contains_key(k) {
        lemma_clean_flags(m[k].1);
    }
}

/// Where the header of a project reads (its tag, its date), the project
/// gives an error exactly when one of its `RECORD_PATH` lines has not two
/// values; and in all, where the project can be read at all, it gives an
/// error exactly when its tag is not `REAPER_PROJECT`, its date is missing,
/// malformed or out of range, or one of its `RECORD_PATH` lines has not two
/// values.
pub proof fn lemma_parse_error_iff<'a>(e: Element<'a>)
    requires
        spec_parse_project(e) is Some,
    ensures
        (spec_parse_project(e) matches Some(Err(_))) <==> (e.tag@ != "REAPER_PROJECT"@
            || e.attr@.len() < 3 || spec_parse_i64(e.attr@[2]@) is None || !(TIMESTAMP_MIN_SECOND
            <= spec_parse_i64(e.attr@[2]@).unwrap() <= TIMESTAMP_MAX_SECOND) || exists|j: int|
            0 <= j < e.children@.len() && #[trigger] bad_record_path_line(e.children@[j])),
{
    let m0 = Map::<PathKey, (Seq<char>, u8)>::empty();
    lemma_from(e, 0, m0, Seq::empty(), ITEM_BITS);
}

/// A project whose children are those of another in another order, with the
/// same tag and attributes, reads without error where the other does, with
/// the same date, the same paths and the same flags for each path.
pub proof fn lemma_children_order_irrelevant<'a>(e1: Element<'a>, e2: Element<'a>)
    requires
        parses_ok(e1),
        e2.tag@ == e1.tag@,
        e2.attr@ == e1.attr@,
        e2.children@.to_multiset() == e1.children@.to_multiset(),
    ensures
        parses_ok(e2),
        spec_parse_project(e2)->0->Ok_0.0 == spec_parse_project(e1)->0->Ok_0.0,
        parsed_usages(e2).dom() == parsed_usages(e1).dom(),
        forall|k: PathKey| #[trigger]
            parsed_usages(e1).contains_key(k) ==> parsed_usages(e2)[k].1 == parsed_usages(e1)[k].1,
{
    let c1 = e1.children@;
    let c2 = e2.children@;
    let m0 = Map::<PathKey, (Seq<char>, u8)>::empty();
    assert(forall|c: Child<'a>| c1.contains(c) <==> c2.contains(c)) by {
        assert forall|c: Child<'a>| c1.contains(c) <==> c2.contains(c) by {
            assert(c1.to_multiset().count(c) == c2.to_multiset().count(c));
        }
    }
    lemma_from(e1, 0, m0, Seq::empty(), ITEM_BITS);
    lemma_from(e2, 0, m0, Seq::empty(), ITEM_BITS);
    assert forall|j: int| 0 <= j < c2.len() implies #[trigger] child_reads(c2[j]) by {
        assert(c2.contains(c2[j]));
        let j1 = choose|j1: int| 0 <= j1 < c1.len() && c1[j1] == c2[j];
        assert(child_reads(c1[j1]));
    }
    assert forall|k: PathKey, f: u8| is_scan_flag(f) implies project_gives(e1, k, f)
        == project_gives(e2, k, f) by {
        if project_gives(e1, k, f) {
            let j = choose|j: int| 0 <= j < c1.len() && #[trigger] child_gives(c1[j], k, f);
            assert(c1.contains(c1[j]));
            let j2 = choose|j2: int| 0 <= j2 < c2.len() && c2[j2] == c1[j];
            assert(child_gives(c2[j2], k, f));
        }
        if project_gives(e2, k, f) {
            let j = choose|j: int| 0 <= j < c2.len() && #[trigger] child_gives(c2[j], k, f);
            assert(c2.contains(c2[j]));
            let j1 = choose|j1: int| 0 <= j1 < c1.len() && c1[j1] == c2[j];
            assert(child_gives(c1[j1], k, f));
        }
    }
    assert(parses_ok(e2));
    assert forall|k: PathKey| parsed_usages(e2).contains_key(k) == parsed_usages(e1).contains_key(
        k,
    ) by {
        lemma_usages_exact(e1, k);
        lemma_usages_exact(e2, k);
    }
    assert(parsed_usages(e2).dom() =~= parsed_usages(e1).dom());
    assert forall|k: PathKey| #[trigger]
        parsed_usages(e1).contains_key(k) implies parsed_usages(e2)[k].1 == parsed_usages(
        e1,
    )[k].1 by {
        lemma_usages_exact(e1, k);
        lemma_usages_exact(e2, k);
    }
}

/// Whether `c` is a child that reading a project passes over: a line that is
/// no `RECORD_PATH` line, or a sub-element that is neither the master
/// effects chain nor a track.
pub open spec fn child_ignored<'a>(c: Child<'a>) -> bool {
    match c {
        Child::Line(_) => !is_record_path_line(c),
        Child::Element(t) => t.tag@ != "MASTERFXLIST"@ && t.tag@ != "TRACK"@,
    }
}

/// Reading the children after an inserted one.
proof fn lemma_from_shifted<'a>(
    e1: Element<'a>,
    e2: Element<'a>,
    pos: int,
    c: Child<'a>,
    i: int,
    m: UsageMap,
)
    requires
        0 <= pos <= e1.children@.len(),
        e2.children@ == e1.children@.insert(pos, c),
        pos < i <= e2.children@.len(),
    ensures
        project_from(e2, i, m) == project_from(e1, i - 1, m),
    decreases e2.children@.len() - i,
{
    if i < e2.children@.len() {
        assert(e2.children@[i] == e1.children@[i - 1]);
        assert(project_step(e2, i, m) == project_step(e1, i - 1, m));
        if let Some(Ok(m2)) = project_step(e2, i, m) {
            lemma_from_shifted(e1, e2, pos, c, i + 1, m2);
        }
    }
}

/// Reading the children up to and over an inserted one.
proof fn lemma_from_before<'a>(
    e1: Element<'a>,
    e2: Element<'a>,
    pos: int,
    c: Child<'a>,
    i: int,
    m: UsageMap,
)
    requires
        0 <= pos <= e1.children@.len(),
        e2.children@ == e1.children@.insert(pos, c),
        child_ignored(c),
        0 <= i <= pos,
    ensures
        project_from(e2, i, m) == project_from(e1, i, m),
    decreases pos - i,
{
    if i == pos {
        assert(e2.children@[pos] == c);
        assert(project_step(e2, pos, m) == Some(Ok::<UsageMap, Seq<char>>(m))) by {
            reveal_strlit("TRACK");
            reveal_strlit("MASTERFXLIST");
        }
        lemma_from_shifted(e1, e2, pos, c, pos + 1, m);
    } else {
        assert(e2.children@[i] == e1.children@[i]);
        assert(project_step(e2, i, m) == project_step(e1, i, m));
        if let Some(Ok(m2)) = project_step(e2, i, m) {
            lemma_from_before(e1, e2, pos, c, i + 1, m2);
        }
    }
}

/// A child that reading a project passes over (see [`child_ignored`]),
/// inserted anywhere among the children of a project, changes nothing of
/// what reading the project gives: the same date and usages, the same
/// error, or the same failure to read a source or an effects chain.
pub proof fn lemma_ignored_child<'a>(e1: Element<'a>, e2: Element<'a>, pos: int, c: Child<'a>)
    requires
        e2.tag@ == e1.tag@,
        e2.attr@ == e1.attr@,
        0 <= pos <= e1.children@.len(),
        e2.children@ == e1.children@.insert(pos, c),
        child_ignored(c),
    ensures
        spec_parse_project(e2) == spec_parse_project(e1),
{
    lemma_from_before(e1, e2, pos, c, 0, Map::empty());
}

} // verus!
