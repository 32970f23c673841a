use vstd::prelude::*;

use super::element::{Child, Element};
use super::paths::{path_list, PathList};
use super::plugin_data::{b64_extract_strings, spec_data_strings, spec_split_data, split_data};
use super::text::{byte_len, starts_with, str_eq, strings_view, strip_prefix};
use vstd::utf8::{decode_utf8, encode_utf8, valid_utf8};

verus! {

/// The kind of a plugin instance in an effects chain.
#[derive(Debug, Clone, Copy, PartialEq, Eq, Structural)]
pub enum PluginKind {
    VST,
    CLAP,
    JS,
}

/// A plugin instance found in an effects chain.
#[derive(Debug, Clone, Copy)]
pub struct Plugin<'a> {
    kind: PluginKind,
    display_name: &'a str,
    ident: &'a str,
    element: &'a Element<'a>,
}

/// What a [`Plugin`] holds: its kind, the name shown for it, the identifier
/// of the plugin it instantiates, and the element that describes it.
pub struct PluginView<'a> {
    pub kind: PluginKind,
    pub display_name: Seq<char>,
    pub ident: Seq<char>,
    pub element: Element<'a>,
}

impl<'a> View for Plugin<'a> {
    type V = PluginView<'a>;

    closed spec fn view(&self) -> PluginView<'a> {
        PluginView {
            kind: self.kind,
            display_name: self.display_name@,
            ident: self.ident@,
            element: *self.element,
        }
    }
}

/// The views of a list of plugins.
pub open spec fn plugins_view<'a>(v: Seq<Plugin<'a>>) -> Seq<PluginView<'a>> {
    v.map_values(|p: Plugin<'a>| p@)
}

/// The plugin kind that an element tag stands for, if any.
pub open spec fn plugin_kind_of(tag: Seq<char>) -> Option<PluginKind> {
    if tag == "VST"@ {
        Some(PluginKind::VST)
    } else if tag == "CLAP"@ {
        Some(PluginKind::CLAP)
    } else if tag == "JS"@ {
        Some(PluginKind::JS)
    } else {
        None
    }
}

/// Tags of effects-chain elements that are not plugin instances.
pub open spec fn is_ignored_chain_tag(tag: Seq<char>) -> bool {
    tag == "PARMENV"@ || tag == "PROGRAMENV"@ || tag == "IN_PINS"@ || tag == "OUT_PINS"@ || tag
        == "JS_SER"@ || tag == "JS_PINMAP"@ || tag == "COMMENT"@ || tag == "VIDEO_EFFECT"@
}

/// The plugin that element `c` of kind `k` describes: VST and CLAP elements
/// give the name first and the identifier second, JS elements the other way
/// round.
pub open spec fn plugin_view_of<'a>(c: Element<'a>, k: PluginKind) -> PluginView<'a> {
    if k == PluginKind::JS {
        PluginView { kind: k, display_name: c.attr@[1]@, ident: c.attr@[0]@, element: c }
    } else {
        PluginView { kind: k, display_name: c.attr@[0]@, ident: c.attr@[1]@, element: c }
    }
}

/// `d` in front of the result `r`, where there is one.
pub open spec fn prepend_some<T>(d: Seq<T>, r: Option<Seq<T>>) -> Option<Seq<T>> {
    match r {
        Some(x) => Some(d + x),
        None => None,
    }
}

/// Putting `a` and then `b` in front of a result is putting `a + b` there.
pub proof fn lemma_prepend_assoc<T>(a: Seq<T>, b: Seq<T>, r: Option<Seq<T>>)
    ensures
        prepend_some(a, prepend_some(b, r)) == prepend_some(a + b, r),
{
    if let Some(x) = r {
        assert(a + (b + x) =~= (a + b) + x);
    }
}

/// The plugins of an effects chain, in order, with those of nested
/// `<CONTAINER>` elements in their place; `None` where the chain holds an
/// element of an unknown kind, or a plugin element without both of its names.
pub open spec fn spec_collect_plugins<'a>(e: Element<'a>) -> Option<Seq<PluginView<'a>>>
    decreases e, 1int, 0int,
{
    collect_from(e, 0)
}

/// The plugins of the effects chain `e` from child `i` on (see
/// [`spec_collect_plugins`]).
pub open spec fn collect_from<'a>(e: Element<'a>, i: int) -> Option<Seq<PluginView<'a>>>
    decreases e, 0int, e.children@.len() - i,
{
    if i < 0 || i >= e.children@.len() {
        Some(Seq::empty())
    } else {
        match e.children@[i] {
            Child::Line(_) => collect_from(e, i + 1),
            Child::Element(c) => {
                match plugin_kind_of(c.tag@) {
                    Some(k) => {
                        if c.attr@.len() >= 2 {
                            prepend_some(seq![plugin_view_of(c, k)], collect_from(e, i + 1))
                        } else {
                            None
                        }
                    },
                    None => {
                        if c.tag@ == "CONTAINER"@ {
                            match spec_collect_plugins(c) {
                                Some(inner) => prepend_some(inner, collect_from(e, i + 1)),
                                None => None,
                            }
                        } else if is_ignored_chain_tag(c.tag@) {
                            collect_from(e, i + 1)
                        } else {
                            None
                        }
                    },
                }
            },
        }
    }
}

/// Scans an effects chain for its plugins, appending them to `out`; returns
/// whether the scan succeeds (see [`spec_collect_plugins`]).
pub fn try_collect_plugins<'a>(e: &'a Element<'a>, out: &mut Vec<Plugin<'a>>) -> (ok: bool)
    ensures
        ok == spec_collect_plugins(*e) is Some,
        ok ==> plugins_view(final(out)@) == plugins_view(old(out)@) + spec_collect_plugins(
            *e,
        ).unwrap(),
    decreases *e, 1int, 0int,
{
    let ghost out0 = plugins_view(out@);
    let ghost mut done: Seq<PluginView<'a>> = Seq::empty();
    let mut i: usize = 0;
    while i < e.children.len()
        invariant
            i <= e.children@.len(),
            collect_from(*e, 0) == prepend_some(done, collect_from(*e, i as int)),
            plugins_view(out@) == out0 + done,
        decreases e.children@.len() - i,
    {
        if let Child::Element(child) = &e.children[i] {
            let kind = if str_eq(child.tag, "VST") {
                Some(PluginKind::VST)
            } else if str_eq(child.tag, "CLAP") {
                Some(PluginKind::CLAP)
            } else if str_eq(child.tag, "JS") {
                Some(PluginKind::JS)
            } else {
                None
            };
            match kind {
                Some(k) => {
                    if child.attr.len() < 2 {
                        return false;
                    }
                    let plugin = if k == PluginKind::JS {
                        Plugin { kind: k, display_name: child.attr[1], ident: child.attr[0], element: child }
                    } else {
                        Plugin { kind: k, display_name: child.attr[0], ident: child.attr[1], element: child }
                    };
                    let ghost before = out@;
                    out.push(plugin);
                    proof {
                        assert(plugin@ == plugin_view_of(*child, k));
                        assert(plugins_view(out@) =~= plugins_view(before).push(plugin@));
                        lemma_prepend_assoc(done, seq![plugin@], collect_from(*e, i + 1));
                        assert(done + seq![plugin@] =~= done.push(plugin@));
                        done = done.push(plugin@);
                    }
                },
                None => {
                    if str_eq(child.tag, "CONTAINER") {
                        if !try_collect_plugins(child, out) {
                            return false;
                        }
                        proof {
                            lemma_prepend_assoc(done, spec_collect_plugins(*child).unwrap(), collect_from(*e, i + 1));
                            assert(plugins_view(out@) =~= out0 + (done + spec_collect_plugins(*child).unwrap()));
                            done = done + spec_collect_plugins(*child).unwrap();
                        }
                    } else if str_eq(child.tag, "PARMENV") || str_eq(child.tag, "PROGRAMENV")
                        || str_eq(child.tag, "IN_PINS") || str_eq(child.tag, "OUT_PINS") || str_eq(
                        child.tag,
                        "JS_SER",
                    ) || str_eq(child.tag, "JS_PINMAP") || str_eq(child.tag, "COMMENT") || str_eq(
                        child.tag,
                        "VIDEO_EFFECT",
                    ) {
                    } else {
                        return false;
                    }
                },
            }
        }
        i = i + 1;
    }
    proof {
        assert(done + Seq::<PluginView<'a>>::empty() =~= done);
    }
    true
}

/// Scan a `FXCHAIN` element for all plugin instances
pub fn collect_plugins<'a>(e: &'a Element<'a>, out: &mut Vec<Plugin<'a>>)
    requires
        spec_collect_plugins(*e) is Some,
    ensures
        plugins_view(final(out)@) == plugins_view(old(out)@) + spec_collect_plugins(*e).unwrap(),
{
    let ok = try_collect_plugins(e, out);
    assert(ok);
}

/// The view of an optional string.
pub open spec fn opt_string_view(r: Option<String>) -> Option<Seq<char>> {
    match r {
        Some(s) => Some(s@),
        None => None,
    }
}

/// The views of a list of optional strings.
pub open spec fn opt_strings_view(v: Seq<Option<String>>) -> Seq<Option<Seq<char>>> {
    v.map_values(|o: Option<String>| opt_string_view(o))
}

/// For each successive non-overlapping match of the regular expression
/// `pattern` in `text`, the text of its capture group 1 (`None` where group
/// 1 takes no part in the match); `None` where `pattern` is not a valid
/// regular expression.
pub uninterp spec fn regex_group1(pattern: Seq<char>, text: Seq<char>) -> Option<
    Seq<Option<Seq<char>>>,
>;

/// The text of capture group 1 in each match of `pattern` in `text`.
///
/// Trusted: calls `regex::Regex::new` on `pattern` and, where that succeeds,
/// `Regex::captures_iter` on `text`, keeping `get(1)` of each match as text;
/// what that gives is named by [`regex_group1`].
#[verifier::external_body]
fn capture_group1(pattern: &str, text: &str) -> (r: Option<Vec<Option<String>>>)
    ensures
        match r {
            Some(v) => regex_group1(pattern@, text@) == Some(opt_strings_view(v@)),
            None => regex_group1(pattern@, text@) is None,
        },
{
    match regex::Regex::new(pattern) {
        Ok(re) => Some(
            re.captures_iter(text).map(|c| c.get(1).map(|m| m.as_str().to_string())).collect(),
        ),
        Err(_) => None,
    }
}

/// The string that the JSON text `text` denotes, or `None` where `text` is
/// not a JSON string.
pub uninterp spec fn json_string_value(text: Seq<char>) -> Option<Seq<char>>;

/// The string that the JSON text `text` denotes.
///
/// Trusted: calls `serde_json::from_str::<String>`, keeping the string where
/// it succeeds; what that gives is named by [`json_string_value`].
#[verifier::external_body]
fn parse_json_string(text: &str) -> (r: Option<String>)
    ensures
        opt_string_view(r) == json_string_value(text@),
{
    serde_json::from_str::<String>(text).ok()
}

/// The value of the hexadecimal digit `b` (either case), or `None` where `b`
/// is no hexadecimal digit.
pub open spec fn hex_digit_value(b: u8) -> Option<u8> {
    if 48 <= b <= 57 {
        Some((b - 48) as u8)
    } else if 65 <= b <= 70 {
        Some((b - 55) as u8)
    } else if 97 <= b <= 102 {
        Some((b - 87) as u8)
    } else {
        None
    }
}

/// `data` with each `%` followed by two hexadecimal digits replaced by the
/// byte they spell. A `%` not followed by a digit stays, and so does one
/// followed by a digit and then a non-digit, with that digit; a `%` with
/// fewer than two bytes after it stays with the rest. `+` is not touched.
pub open spec fn percent_decode_bytes(data: Seq<u8>) -> Seq<u8>
    decreases data.len(),
{
    if data.len() == 0 {
        data
    } else if data[0] != 37u8 {
        seq![data[0]] + percent_decode_bytes(data.drop_first())
    } else if data.len() < 3 {
        data
    } else {
        match (hex_digit_value(data[1]), hex_digit_value(data[2])) {
            (Some(h), Some(l)) => seq![(h * 16 + l) as u8] + percent_decode_bytes(
                data.subrange(3, data.len() as int),
            ),
            (Some(_), None) => seq![37u8, data[1]] + percent_decode_bytes(
                data.subrange(2, data.len() as int),
            ),
            (None, _) => seq![37u8] + percent_decode_bytes(data.drop_first()),
        }
    }
}

/// `text` with its `%XX` escapes decoded: the escapes of its UTF-8 bytes
/// decoded, and the bytes read as UTF-8, or `None` where they are not UTF-8.
pub open spec fn percent_decoded(text: Seq<char>) -> Option<Seq<char>> {
    let bytes = percent_decode_bytes(encode_utf8(text));
    if valid_utf8(bytes) {
        Some(decode_utf8(bytes))
    } else {
        None
    }
}

/// `text` with its `%XX` escapes decoded.
///
/// Trusted: calls `urlencoding::decode`, keeping the text where it succeeds.
/// Its source decodes the escapes of the bytes of `text` as
/// [`percent_decode_bytes`] states, and succeeds exactly where the result is
/// UTF-8, with the text it spells ([`percent_decoded`]).
#[verifier::external_body]
fn percent_decode(text: &str) -> (r: Option<String>)
    ensures
        opt_string_view(r) == percent_decoded(text@),
{
    urlencoding::decode(text).ok().map(|s| s.into_owned())
}

/// The regular expression that finds the impulse-response paths in the
/// configuration of the NadIR plugin: group 1 is a JSON string.
pub const NADIR_IR_PATTERN: &'static str = r#""IRPath[01]" *: *("(?:[^"\\]|\\.)*")"#;

/// The regular expression that finds the sample locations in the
/// configuration of the Sitala plugin: group 1 is a JSON string.
pub const SITALA_SOUND_PATTERN: &'static str = r#"<sound slot="\d+" location=("(?:[^"\\]|\\.)*")"#;

/// The first `<STATE>` sub-element among `children[i..]`.
pub open spec fn first_state<'a>(children: Seq<Child<'a>>, i: int) -> Option<Element<'a>>
    decreases children.len() - i,
{
    if i < 0 || i >= children.len() {
        None
    } else {
        match children[i] {
            Child::Element(c) => {
                if c.tag@ == "STATE"@ {
                    Some(c)
                } else {
                    first_state(children, i + 1)
                }
            },
            Child::Line(_) => first_state(children, i + 1),
        }
    }
}

/// The strings in a plugin's saved data: a VST plugin keeps its data in its
/// own lines, a CLAP plugin in the lines of its first `<STATE>` sub-element
/// (`None` where it has none), and a JS plugin has none.
pub open spec fn spec_raw_strings<'a>(p: PluginView<'a>) -> Option<Seq<Seq<char>>> {
    match p.kind {
        PluginKind::VST => Some(spec_data_strings(p.element.children@)),
        PluginKind::CLAP => match first_state(p.element.children@, 0) {
            Some(state) => Some(spec_data_strings(state.children@)),
            None => None,
        },
        PluginKind::JS => Some(Seq::empty()),
    }
}

/// The first of `list[i..]` that takes at least 100 bytes in UTF-8.
pub open spec fn first_config(list: Seq<Seq<char>>, i: int) -> Option<Seq<char>>
    decreases list.len() - i,
{
    if i < 0 || i >= list.len() {
        None
    } else if encode_utf8(list[i]).len() >= 100 {
        Some(list[i])
    } else {
        first_config(list, i + 1)
    }
}

/// The paths named by the NadIR matches `ms[i..]`, appended to `acc`: each
/// JSON string that does not start with `"${documents}` (the plugin's own
/// files); `None` where a match is not a JSON string.
pub open spec fn nadir_paths_from(ms: Seq<Option<Seq<char>>>, i: int, acc: Seq<Seq<char>>) -> Option<
    Seq<Seq<char>>,
>
    decreases ms.len() - i,
{
    if i < 0 || i >= ms.len() {
        Some(acc)
    } else {
        match ms[i] {
            Some(m) => {
                if "\"${documents}"@.is_prefix_of(m) {
                    nadir_paths_from(ms, i + 1, acc)
                } else {
                    match json_string_value(m) {
                        Some(t) => nadir_paths_from(ms, i + 1, acc.push(t)),
                        None => None,
                    }
                }
            },
            None => nadir_paths_from(ms, i + 1, acc),
        }
    }
}

/// The paths named by the Sitala matches `ms[i..]`, appended to `acc`: each
/// JSON string, percent-decoded, that is a `file:///` URL, without that
/// prefix (others are passed over); `None` where a match is not a JSON string.
pub open spec fn sitala_paths_from(ms: Seq<Option<Seq<char>>>, i: int, acc: Seq<Seq<char>>) -> Option<
    Seq<Seq<char>>,
>
    decreases ms.len() - i,
{
    if i < 0 || i >= ms.len() {
        Some(acc)
    } else {
        match ms[i] {
            Some(m) => match json_string_value(m) {
                Some(t) => match percent_decoded(t) {
                    Some(d) => {
                        if "file:///"@.is_prefix_of(d) {
                            sitala_paths_from(ms, i + 1, acc.push(d.skip("file:///"@.len() as int)))
                        } else {
                            sitala_paths_from(ms, i + 1, acc)
                        }
                    },
                    None => sitala_paths_from(ms, i + 1, acc),
                },
                None => None,
            },
            None => sitala_paths_from(ms, i + 1, acc),
        }
    }
}

/// The paths found in the configuration string of a plugin whose matches of
/// `pattern` are read by `from` (see [`nadir_paths_from`] and
/// [`sitala_paths_from`]); no path where `pattern` is not valid.
pub open spec fn config_paths(pattern: Seq<char>, config: Seq<char>, sitala: bool) -> Option<
    Seq<Seq<char>>,
> {
    match regex_group1(pattern, config) {
        Some(ms) => if sitala {
            sitala_paths_from(ms, 0, Seq::empty())
        } else {
            nadir_paths_from(ms, 0, Seq::empty())
        },
        None => Some(Seq::empty()),
    }
}

/// The paths in the configuration string of a plugin: the first of its
/// strings of at least 100 bytes; no path where it has none.
pub open spec fn paths_from_config<'a>(p: PluginView<'a>, pattern: Seq<char>, sitala: bool) -> Option<
    Seq<Seq<char>>,
> {
    match spec_raw_strings(p) {
        Some(list) => match first_config(list, 0) {
            Some(config) => config_paths(pattern, config, sitala),
            None => Some(Seq::empty()),
        },
        None => Some(Seq::empty()),
    }
}

/// The files that a plugin instance loads, where the plugin is one whose
/// saved data is understood: the sample of ReaSamplOmatic5000 (the first
/// string of its data), the impulse responses of NadIR, the samples of
/// Sitala; no file for other plugins. `None` where a configuration holds a
/// path that is not a well-formed JSON string.
pub open spec fn spec_plugin_paths<'a>(p: PluginView<'a>) -> Option<Seq<Seq<char>>> {
    if p.kind == PluginKind::VST && p.ident == "reasamplomatic.dll"@ {
        match spec_raw_strings(p) {
            Some(list) => if list.len() > 0 {
                Some(seq![list[0]])
            } else {
                Some(Seq::empty())
            },
            None => Some(Seq::empty()),
        }
    } else if p.kind == PluginKind::VST && p.ident == "NadIR.vst3"@ {
        paths_from_config(p, NADIR_IR_PATTERN@, false)
    } else if p.kind == PluginKind::VST && p.ident == "Sitala.dll"@ {
        paths_from_config(p, SITALA_SOUND_PATTERN@, true)
    } else {
        Some(Seq::empty())
    }
}

/// The first `<STATE>` sub-element of a plugin element.
fn find_state<'a>(children: &'a Vec<Child<'a>>) -> (r: Option<&'a Element<'a>>)
    ensures
        match r {
            Some(s) => first_state(children@, 0) == Some(*s),
            None => first_state(children@, 0) is None,
        },
{
    let mut i: usize = 0;
    while i < children.len()
        invariant
            i <= children@.len(),
            first_state(children@, 0) == first_state(children@, i as int),
        decreases children@.len() - i,
    {
        if let Child::Element(c) = &children[i] {
            if str_eq(c.tag, "STATE") {
                return Some(c);
            }
        }
        i = i + 1;
    }
    None
}

/// The first string of `list` that takes at least 100 bytes.
fn first_long_string(list: Vec<String>) -> (r: Option<String>)
    ensures
        opt_string_view(r) == first_config(strings_view(list@), 0),
{
    let ghost lv = strings_view(list@);
    let mut i: usize = 0;
    while i < list.len()
        invariant
            i <= list@.len(),
            lv == strings_view(list@),
            first_config(lv, 0) == first_config(lv, i as int),
        decreases list@.len() - i,
    {
        let s = list[i].as_str();
        assert(lv[i as int] == s@);
        if byte_len(s) >= 100 {
            return Some(list[i].clone());
        }
        i = i + 1;
    }
    None
}

/// The paths named by the matches of the NadIR pattern.
pub fn nadir_paths(ms: &Vec<Option<String>>) -> (r: Option<PathList>)
    ensures
        match r {
            Some(v) => nadir_paths_from(opt_strings_view(ms@), 0, Seq::empty()) == Some(
                path_list(v),
            ),
            None => nadir_paths_from(opt_strings_view(ms@), 0, Seq::empty()) is None,
        },
{
    let ghost mv = opt_strings_view(ms@);
    let mut out = PathList::new();
    let mut i: usize = 0;
    while i < ms.len()
        invariant
            i <= ms@.len(),
            mv == opt_strings_view(ms@),
            nadir_paths_from(mv, 0, Seq::empty()) == nadir_paths_from(mv, i as int, path_list(out)),
        decreases ms@.len() - i,
    {
        if let Some(m) = &ms[i] {
            if !starts_with(m.as_str(), "\"${documents}") {
                match parse_json_string(m.as_str()) {
                    Some(t) => out.push(t),
                    None => {
                        return None;
                    },
                }
            }
        }
        i = i + 1;
    }
    Some(out)
}

/// The paths named by the matches of the Sitala pattern.
pub fn sitala_paths(ms: &Vec<Option<String>>) -> (r: Option<PathList>)
    ensures
        match r {
            Some(v) => sitala_paths_from(opt_strings_view(ms@), 0, Seq::empty()) == Some(
                path_list(v),
            ),
            None => sitala_paths_from(opt_strings_view(ms@), 0, Seq::empty()) is None,
        },
{
    let ghost mv = opt_strings_view(ms@);
    let mut out = PathList::new();
    let mut i: usize = 0;
    while i < ms.len()
        invariant
            i <= ms@.len(),
            mv == opt_strings_view(ms@),
            sitala_paths_from(mv, 0, Seq::empty()) == sitala_paths_from(mv, i as int, path_list(out)),
        decreases ms@.len() - i,
    {
        if let Some(m) = &ms[i] {
            match parse_json_string(m.as_str()) {
                Some(t) => {
                    if let Some(d) = percent_decode(t.as_str()) {
                        if let Some(rest) = strip_prefix(d.as_str(), "file:///") {
                            out.push(rest.to_owned());
                        }
                    }
                },
                None => {
                    return None;
                },
            }
        }
        i = i + 1;
    }
    Some(out)
}

impl<'a> Plugin<'a> {
    /// The kind of the plugin.
    pub fn kind(&self) -> (r: PluginKind)
        ensures
            r == self@.kind,
    {
        self.kind
    }

    /// The name shown for the plugin instance.
    pub fn display_name(&self) -> (r: &str)
        ensures
            r@ == self@.display_name,
    {
        self.display_name
    }

    /// The identifier of the plugin that the instance instantiates.
    pub fn ident(&self) -> (r: &str)
        ensures
            r@ == self@.ident,
    {
        self.ident
    }

    /// The strings in the plugin's saved data (see [`spec_raw_strings`]).
    fn extract_raw_strings_from_data(&self) -> (r: Result<Vec<String>, &'static str>)
        ensures
            match spec_raw_strings(self@) {
                Some(list) => r matches Ok(v) && strings_view(v@) == list,
                None => r matches Err(msg) && msg@ == "failed to find CLAP plugin data"@,
            },
    {
        match self.kind {
            PluginKind::VST => Ok(b64_extract_strings(self.element.children.as_slice())),
            PluginKind::CLAP => match find_state(&self.element.children) {
                Some(state) => Ok(b64_extract_strings(state.children.as_slice())),
                None => Err("failed to find CLAP plugin data"),
            },
            PluginKind::JS => Ok(Vec::new()),
        }
    }

    /// The paths in the plugin's configuration string, read with `pattern`.
    fn paths_in_config(&self, pattern: &str, sitala: bool) -> (r: Option<PathList>)
        ensures
            match r {
                Some(v) => paths_from_config(self@, pattern@, sitala) == Some(path_list(v)),
                None => paths_from_config(self@, pattern@, sitala) is None,
            },
    {
        let config = match self.extract_raw_strings_from_data() {
            Ok(list) => match first_long_string(list) {
                Some(c) => c,
                None => {
                    return Some(PathList::new());
                },
            },
            Err(_) => {
                return Some(PathList::new());
            },
        };
        match capture_group1(pattern, config.as_str()) {
            Some(ms) => if sitala {
                sitala_paths(&ms)
            } else {
                nadir_paths(&ms)
            },
            None => Some(PathList::new()),
        }
    }

    /// Plugin-specific logic for extracting paths, or `None` where a
    /// configuration holds a malformed JSON string (see [`spec_plugin_paths`]).
    fn find_paths(&self) -> (r: Option<PathList>)
        ensures
            match r {
                Some(v) => spec_plugin_paths(self@) == Some(path_list(v)),
                None => spec_plugin_paths(self@) is None,
            },
    {
        if self.kind == PluginKind::VST && str_eq(self.ident, "reasamplomatic.dll") {
            let strings = match self.extract_raw_strings_from_data() {
                Ok(x) => x,
                Err(_) => {
                    return Some(PathList::new());
                },
            };
            let mut out = PathList::new();
            if strings.len() > 0 {
                out.push(strings[0].clone());
            }
            proof {
                if strings@.len() > 0 {
                    assert(path_list(out) =~= seq![strings_view(strings@)[0]]);
                }
            }
            Some(out)
        } else if self.kind == PluginKind::VST && str_eq(self.ident, "NadIR.vst3") {
            self.paths_in_config(NADIR_IR_PATTERN, false)
        } else if self.kind == PluginKind::VST && str_eq(self.ident, "Sitala.dll") {
            self.paths_in_config(SITALA_SOUND_PATTERN, true)
        } else {
            Some(PathList::new())
        }
    }

    /// Plugin-specific logic for extracting paths
    pub fn extract_paths(&self) -> (r: PathList)
        requires
            spec_plugin_paths(self@) is Some,
        ensures
            spec_plugin_paths(self@) == Some(path_list(r)),
    {
        self.try_extract_paths().unwrap()
    }

    /// The paths that the plugin loads, or `None` where a configuration holds
    /// a malformed JSON string (see [`spec_plugin_paths`]).
    pub fn try_extract_paths(&self) -> (r: Option<PathList>)
        ensures
            match r {
                Some(v) => spec_plugin_paths(self@) == Some(path_list(v)),
                None => spec_plugin_paths(self@) is None,
            },
    {
        self.find_paths()
    }
}

/// The paths of the plugins `ps[i..]`, one plugin after the other, appended
/// to `acc`; `None` where a plugin's paths cannot be read.
pub open spec fn paths_of_plugins_from<'a>(ps: Seq<PluginView<'a>>, i: int, acc: Seq<Seq<char>>) -> Option<
    Seq<Seq<char>>,
>
    decreases ps.len() - i,
{
    if i < 0 || i >= ps.len() {
        Some(acc)
    } else {
        match spec_plugin_paths(ps[i]) {
            Some(x) => paths_of_plugins_from(ps, i + 1, acc + x),
            None => None,
        }
    }
}

/// The files that the plugins of an effects chain load, plugin after plugin
/// (see [`spec_plugin_paths`]); `None` where the chain cannot be scanned or a
/// plugin's paths cannot be read.
pub open spec fn spec_fxchain_paths<'a>(e: Element<'a>) -> Option<Seq<Seq<char>>> {
    match spec_collect_plugins(e) {
        Some(ps) => paths_of_plugins_from(ps, 0, Seq::empty()),
        None => None,
    }
}

/// The files that the plugins of an effects chain load, or `None` (see
/// [`spec_fxchain_paths`]).
pub(crate) fn find_fxchain_paths(e: &Element) -> (r: Option<PathList>)
    ensures
        match r {
            Some(v) => spec_fxchain_paths(*e) == Some(path_list(v)),
            None => spec_fxchain_paths(*e) is None,
        },
{
    let mut plugins: Vec<Plugin> = Vec::new();
    if !try_collect_plugins(e, &mut plugins) {
        return None;
    }
    let ghost ps = plugins_view(plugins@);
    assert(ps =~= spec_collect_plugins(*e).unwrap());
    let mut res = PathList::new();
    let mut i: usize = 0;
    while i < plugins.len()
        invariant
            i <= plugins@.len(),
            ps == plugins_view(plugins@),
            spec_collect_plugins(*e) == Some(ps),
            paths_of_plugins_from(ps, 0, Seq::empty()) == paths_of_plugins_from(
                ps,
                i as int,
                path_list(res),
            ),
        decreases plugins@.len() - i,
    {
        assert(ps[i as int] == plugins@[i as int]@);
        let found = match plugins[i].find_paths() {
            Some(v) => v.into_vec(),
            None => {
                return None;
            },
        };
        let ghost before = path_list(res);
        let mut k: usize = 0;
        while k < found.len()
            invariant
                k <= found@.len(),
                path_list(res) == before + strings_view(found@).take(k as int),
            decreases found@.len() - k,
        {
            res.push(found[k].clone());
            proof {
                assert(strings_view(found@).take(k + 1) =~= strings_view(found@).take(k as int).push(
                    found@[k as int]@,
                ));
            }
            k = k + 1;
        }
        proof {
            assert(strings_view(found@).take(found@.len() as int) =~= strings_view(found@));
        }
        i = i + 1;
    }
    Some(res)
}

/// The files that the plugins of an effects chain load.
pub fn extract_fxchain_paths(e: &Element) -> (r: PathList)
    requires
        spec_fxchain_paths(*e) is Some,
    ensures
        spec_fxchain_paths(*e) == Some(path_list(r)),
{
    try_extract_fxchain_paths(e).unwrap()
}

/// The files that the plugins of an effects chain load, or `None` where the
/// chain cannot be scanned or a plugin's paths cannot be read (see
/// [`spec_fxchain_paths`]).
pub fn try_extract_fxchain_paths(e: &Element) -> (r: Option<PathList>)
    ensures
        match r {
            Some(v) => spec_fxchain_paths(*e) == Some(path_list(v)),
            None => spec_fxchain_paths(*e) is None,
        },
{
    find_fxchain_paths(e)
}

/// Only VST plugins load files that the scan knows of: CLAP and JS plugin
/// instances give no path.
pub proof fn lemma_only_vst_paths<'a>(p: PluginView<'a>)
    requires
        p.kind != PluginKind::VST,
    ensures
        spec_plugin_paths(p) == Some(Seq::<Seq<char>>::empty()),
{
}

/// A ReaSamplOmatic5000 instance gives at most one path: its sample.
pub proof fn lemma_sampler_one_path<'a>(p: PluginView<'a>)
    requires
        p.kind == PluginKind::VST,
        p.ident == "reasamplomatic.dll"@,
    ensures
        spec_plugin_paths(p) matches Some(ps) && ps.len() <= 1,
{
}

/// Whether `p` was read from a plugin element of its kind that names it.
pub open spec fn is_read_plugin<'a>(p: PluginView<'a>) -> bool {
    plugin_kind_of(p.element.tag@) == Some(p.kind) && p.element.attr@.len() >= 2
        && p == plugin_view_of(p.element, p.kind)
}

/// Every plugin found in an effects chain was read from a plugin element of
/// its kind (`VST`, `CLAP` or `JS`) that names it.
pub proof fn lemma_collected_are_plugins<'a>(e: Element<'a>, j: int)
    requires
        spec_collect_plugins(e) matches Some(ps) && 0 <= j < ps.len(),
    ensures
        is_read_plugin(spec_collect_plugins(e).unwrap()[j]),
    decreases e, 1int, 0int,
{
    lemma_collect_from_plugins(e, 0, j);
}

/// Every plugin found in the effects chain `e` from child `i` on was read
/// from a plugin element of its kind.
proof fn lemma_collect_from_plugins<'a>(e: Element<'a>, i: int, j: int)
    requires
        collect_from(e, i) matches Some(ps) && 0 <= j < ps.len(),
    ensures
        is_read_plugin(collect_from(e, i).unwrap()[j]),
    decreases e, 0int, e.children@.len() - i,
{
    if 0 <= i < e.children@.len() {
        match e.children@[i] {
            Child::Line(_) => {
                lemma_collect_from_plugins(e, i + 1, j);
            },
            Child::Element(c) => {
                match plugin_kind_of(c.tag@) {
                    Some(k) => {
                        if j > 0 {
                            lemma_collect_from_plugins(e, i + 1, j - 1);
                        }
                    },
                    None => {
                        if c.tag@ == "CONTAINER"@ {
                            let inner = spec_collect_plugins(c).unwrap();
                            if j < inner.len() {
                                lemma_collected_are_plugins(c, j);
                            } else {
                                lemma_collect_from_plugins(e, i + 1, j - inner.len());
                            }
                        } else {
                            lemma_collect_from_plugins(e, i + 1, j);
                        }
                    },
                }
            },
        }
    }
}

/// The strings in the saved data of a plugin element, split at every
/// control character, line breaks included: a `VST` element's own lines, a
/// `CLAP` element's `<STATE>` lines; `None` for a `CLAP` element without
/// state and for any other element.
pub open spec fn spec_plugin_strings<'a>(e: Element<'a>) -> Option<Seq<Seq<char>>> {
    if e.tag@ == "VST"@ {
        Some(spec_split_data(e.children@, true))
    } else if e.tag@ == "CLAP"@ {
        match first_state(e.children@, 0) {
            Some(state) => Some(spec_split_data(state.children@, true)),
            None => None,
        }
    } else {
        None
    }
}

/// The strings in the saved data of a plugin element, split at every
/// control character (see [`spec_plugin_strings`]).
pub fn extract_plugin_strings(plugin: &Element) -> (r: Option<Vec<String>>)
    ensures
        match spec_plugin_strings(*plugin) {
            Some(list) => r matches Some(v) && strings_view(v@) == list,
            None => r is None,
        },
{
    if str_eq(plugin.tag, "VST") {
        Some(split_data(plugin.children.as_slice(), true))
    } else if str_eq(plugin.tag, "CLAP") {
        match find_state(&plugin.children) {
            Some(state) => Some(split_data(state.children.as_slice(), true)),
            None => None,
        }
    } else {
        None
    }
}

/// Whether the second attribute of `e` is `ident`.
pub open spec fn names_ident<'a>(e: Element<'a>, ident: Seq<char>) -> bool {
    e.attr@.len() >= 2 && e.attr@[1]@ == ident
}

/// Whether every match in `ms` has its group.
pub open spec fn all_groups(ms: Seq<Option<Seq<char>>>) -> bool {
    forall|i: int| 0 <= i < ms.len() ==> #[trigger] ms[i] is Some
}

/// The files that a plugin element loads, read from its strings split at
/// every control character: the sample of a ReaSamplOmatic5000 `VST`
/// element (its first string), the impulse responses of a NadIR `VST`
/// element (read from its first string of at least 100 bytes); no file for
/// other elements, or where the strings or the configuration cannot be
/// found. `None` where a match lacks its group or a path is not a
/// well-formed JSON string.
pub open spec fn spec_plugin_element_paths<'a>(e: Element<'a>) -> Option<Seq<Seq<char>>> {
    if e.tag@ == "VST"@ && names_ident(e, "reasamplomatic.dll"@) {
        match spec_plugin_strings(e) {
            Some(list) => if list.len() > 0 {
                Some(seq![list[0]])
            } else {
                Some(Seq::empty())
            },
            None => Some(Seq::empty()),
        }
    } else if e.tag@ == "VST"@ && names_ident(e, "NadIR.vst3"@) {
        match spec_plugin_strings(e) {
            Some(list) => match first_config(list, 0) {
                Some(config) => match regex_group1(NADIR_IR_PATTERN@, config) {
                    Some(ms) => if all_groups(ms) {
                        nadir_paths_from(ms, 0, Seq::empty())
                    } else {
                        None
                    },
                    None => Some(Seq::empty()),
                },
                None => Some(Seq::empty()),
            },
            None => Some(Seq::empty()),
        }
    } else {
        Some(Seq::empty())
    }
}

/// Whether the second attribute of `e` is `ident`.
fn has_ident(e: &Element, ident: &str) -> (r: bool)
    ensures
        r == names_ident(*e, ident@),
{
    e.attr.len() >= 2 && str_eq(e.attr[1], ident)
}

/// Whether every match in `ms` has its group.
fn has_all_groups(ms: &Vec<Option<String>>) -> (r: bool)
    ensures
        r == all_groups(opt_strings_view(ms@)),
{
    let ghost mv = opt_strings_view(ms@);
    let mut i: usize = 0;
    while i < ms.len()
        invariant
            i <= ms@.len(),
            mv == opt_strings_view(ms@),
            forall|j: int| 0 <= j < i ==> #[trigger] mv[j] is Some,
        decreases ms@.len() - i,
    {
        if ms[i].is_none() {
            assert(mv[i as int] is None);
            return false;
        }
        assert(mv[i as int] is Some);
        i = i + 1;
    }
    true
}

/// The files that a plugin element loads, or `None` where a match lacks its
/// group or a path is not a well-formed JSON string (see
/// [`spec_plugin_element_paths`]).
pub fn try_extract_plugin_path(e: &Element) -> (r: Option<PathList>)
    ensures
        match r {
            Some(v) => spec_plugin_element_paths(*e) == Some(path_list(v)),
            None => spec_plugin_element_paths(*e) is None,
        },
{
    if str_eq(e.tag, "VST") && has_ident(e, "reasamplomatic.dll") {
        let mut out = PathList::new();
        if let Some(strings) = extract_plugin_strings(e) {
            if strings.len() > 0 {
                out.push(strings[0].clone());
                proof {
                    assert(path_list(out) =~= seq![strings_view(strings@)[0]]);
                }
            }
        }
        Some(out)
    } else if str_eq(e.tag, "VST") && has_ident(e, "NadIR.vst3") {
        let config = match extract_plugin_strings(e) {
            Some(list) => match first_long_string(list) {
                Some(c) => c,
                None => {
                    return Some(PathList::new());
                },
            },
            None => {
                return Some(PathList::new());
            },
        };
        match capture_group1(NADIR_IR_PATTERN, config.as_str()) {
            Some(ms) => {
                if !has_all_groups(&ms) {
                    return None;
                }
                nadir_paths(&ms)
            },
            None => Some(PathList::new()),
        }
    } else {
        Some(PathList::new())
    }
}

/// The files that a plugin element loads (see [`spec_plugin_element_paths`]).
pub fn extract_plugin_path(e: &Element) -> (r: PathList)
    requires
        spec_plugin_element_paths(*e) is Some,
    ensures
        spec_plugin_element_paths(*e) == Some(path_list(r)),
{
    try_extract_plugin_path(e).unwrap()
}

/// Whether `t` tags an element of an effects chain that holds no plugin
/// instance: a parameter or program envelope, an input or output pin map,
/// saved JS state or pin map, a comment, or a video effect.
pub open spec fn is_chain_extra_tag(t: Seq<char>) -> bool {
    ||| t == "PARMENV"@ || t == "PROGRAMENV"@ || t == "IN_PINS"@ || t == "OUT_PINS"@
    ||| t == "JS_SER"@ || t == "JS_PINMAP"@ || t == "COMMENT"@ || t == "VIDEO_EFFECT"@
}

/// Reading a chain element whose tag [`is_chain_extra_tag`] passes it over.
proof fn lemma_extra_passed<'a>(e: Element<'a>, i: int)
    requires
        0 <= i < e.children@.len(),
        e.children@[i] matches Child::Element(c) && is_chain_extra_tag(c.tag@),
    ensures
        collect_from(e, i) == collect_from(e, i + 1),
{
    reveal_strlit("PARMENV");
    reveal_strlit("PROGRAMENV");
    reveal_strlit("IN_PINS");
    reveal_strlit("OUT_PINS");
    reveal_strlit("JS_SER");
    reveal_strlit("JS_PINMAP");
    reveal_strlit("COMMENT");
    reveal_strlit("VIDEO_EFFECT");
    reveal_strlit("VST");
    reveal_strlit("CLAP");
    reveal_strlit("JS");
    reveal_strlit("CONTAINER");
    let c = e.children@[i]->Element_0;
    let t = c.tag@;
    assert(t.len() >= 6);
    assert(t != "VST"@ && t != "CLAP"@ && t != "JS"@);
    assert(t != "CONTAINER"@) by {
        // Of the extra tags only JS_PINMAP has nine characters.
        if t == "CONTAINER"@ {
            assert(t == "JS_PINMAP"@);
            assert(t[0] == 'J');
        }
    }
    assert(is_ignored_chain_tag(t));
}

/// Reading the children after an inserted one.
proof fn lemma_collect_shifted<'a>(
    e1: Element<'a>,
    e2: Element<'a>,
    pos: int,
    c: Child<'a>,
    i: int,
)
    requires
        0 <= pos <= e1.children@.len(),
        e2.children@ == e1.children@.insert(pos, c),
        pos < i <= e2.children@.len(),
    ensures
        collect_from(e2, i) == collect_from(e1, i - 1),
    decreases e2.children@.len() - i,
{
    if i < e2.children@.len() {
        assert(e2.children@[i] == e1.children@[i - 1]);
        lemma_collect_shifted(e1, e2, pos, c, i + 1);
    }
}

/// Reading the children up to and over an inserted one.
proof fn lemma_collect_before<'a>(
    e1: Element<'a>,
    e2: Element<'a>,
    pos: int,
    c: Child<'a>,
    i: int,
)
    requires
        0 <= pos <= e1.children@.len(),
        e2.children@ == e1.children@.insert(pos, c),
        c matches Child::Element(x) && is_chain_extra_tag(x.tag@),
        0 <= i <= pos,
    ensures
        collect_from(e2, i) == collect_from(e1, i),
    decreases pos - i,
{
    if i == pos {
        assert(e2.children@[pos] == c);
        lemma_extra_passed(e2, pos);
        lemma_collect_shifted(e1, e2, pos, c, pos + 1);
    } else {
        assert(e2.children@[i] == e1.children@[i]);
        lemma_collect_before(e1, e2, pos, c, i + 1);
    }
}

/// An envelope, a pin map, saved JS state, a comment or a video effect
/// (see [`is_chain_extra_tag`]), inserted anywhere among the children of an
/// effects chain, changes nothing of what scanning the chain gives: the same
/// plugins, or the same failure.
pub proof fn lemma_chain_extra_ignored<'a>(e1: Element<'a>, e2: Element<'a>, pos: int, c: Child<'a>)
    requires
        0 <= pos <= e1.children@.len(),
        e2.children@ == e1.children@.insert(pos, c),
        c matches Child::Element(x) && is_chain_extra_tag(x.tag@),
    ensures
        spec_collect_plugins(e2) == spec_collect_plugins(e1),
{
    lemma_collect_before(e1, e2, pos, c, 0);
}

/// An effects chain whose children are lines and elements that hold no
/// plugin (see [`is_chain_extra_tag`]) is scanned without error and holds no
/// plugin.
pub proof fn lemma_chain_of_extras<'a>(e: Element<'a>)
    requires
        forall|i: int|
            0 <= i < e.children@.len() ==> (#[trigger] e.children@[i] matches Child::Element(x)
                ==> is_chain_extra_tag(x.tag@)),
    ensures
        spec_collect_plugins(e) == Some(Seq::<PluginView<'a>>::empty()),
{
    lemma_extras_from(e, 0);
}

/// Scanning a chain of lines and extra elements from child `i` on.
proof fn lemma_extras_from<'a>(e: Element<'a>, i: int)
    requires
        0 <= i <= e.children@.len(),
        forall|j: int|
            0 <= j < e.children@.len() ==> (#[trigger] e.children@[j] matches Child::Element(x)
                ==> is_chain_extra_tag(x.tag@)),
    ensures
        collect_from(e, i) == Some(Seq::<PluginView<'a>>::empty()),
    decreases e.children@.len() - i,
{
    if i < e.children@.len() {
        lemma_extras_from(e, i + 1);
        if e.children@[i] is Element {
            lemma_extra_passed(e, i);
        }
    }
}

/// Whether the match `m` of the NadIR pattern names the path `t`: it is no
/// built-in file (its text does not start with `"${documents}`), and its
/// text is the JSON string `t`.
pub open spec fn nadir_match_names(m: Option<Seq<char>>, t: Seq<char>) -> bool {
    m matches Some(x) && !"\"${documents}"@.is_prefix_of(x) && json_string_value(x) == Some(t)
}

/// Reading the NadIR matches from `i` on: what was read before stays in
/// front, every later match that is no built-in file names one of the
/// paths, and every path was read before or is named by a later match.
proof fn lemma_nadir_from(ms: Seq<Option<Seq<char>>>, i: int, acc: Seq<Seq<char>>)
    requires
        0 <= i <= ms.len(),
        nadir_paths_from(ms, i, acc) is Some,
    ensures
        nadir_paths_from(ms, i, acc) matches Some(ps) && {
            &&& ps.take(acc.len() as int) == acc
            &&& acc.len() <= ps.len()
            &&& forall|k: int|
                i <= k < ms.len() && (#[trigger] ms[k] matches Some(x) && !"\"${documents}"@.is_prefix_of(
                    x,
                )) ==> exists|t: Seq<char>| nadir_match_names(ms[k], t) && ps.contains(t)
            &&& forall|q: Seq<char>|
                #[trigger] ps.contains(q) ==> acc.contains(q) || exists|k: int|
                    i <= k < ms.len() && nadir_match_names(#[trigger] ms[k], q)
        },
    decreases ms.len() - i,
{
    if i < ms.len() {
        let next = match ms[i] {
            Some(m) => if "\"${documents}"@.is_prefix_of(m) {
                acc
            } else {
                acc.push(json_string_value(m).unwrap())
            },
            None => acc,
        };
        lemma_nadir_from(ms, i + 1, next);
        let ps = nadir_paths_from(ms, i, acc).unwrap();
        assert(nadir_paths_from(ms, i + 1, next) == Some(ps));
        assert(ps.take(acc.len() as int) =~= acc) by {
            assert(ps.take(next.len() as int) == next);
            assert(next.take(acc.len() as int) =~= acc);
            assert(ps.take(acc.len() as int) =~= ps.take(next.len() as int).take(acc.len() as int));
        }
        if let Some(m) = ms[i] {
            if !"\"${documents}"@.is_prefix_of(m) {
                let t = json_string_value(m).unwrap();
                assert(nadir_match_names(ms[i], t));
                assert(next[acc.len() as int] == t);
                assert(ps[acc.len() as int] == t);
                assert(ps.contains(t));
            }
        }
        assert forall|q: Seq<char>| #[trigger] ps.contains(q) implies acc.contains(q) || exists|
            k: int,
        | i <= k < ms.len() && nadir_match_names(#[trigger] ms[k], q) by {
            if next.contains(q) && !acc.contains(q) {
                let j = choose|j: int| 0 <= j < next.len() && next[j] == q;
                if j < acc.len() {
                    assert(acc[j] == q);
                } else {
                    assert(nadir_match_names(ms[i], q));
                }
            }
        }
    } else {
        assert(acc.take(acc.len() as int) =~= acc);
    }
}

/// A NadIR `VST` instance loads every impulse response that its
/// configuration names: where its paths can be read, the JSON string of
/// every match of the impulse-response pattern in its configuration string
/// (its first data string of at least 100 bytes) that is no built-in file is
/// one of its paths, and each of its paths is named by such a match.
pub proof fn lemma_nadir_all_matches<'a>(p: PluginView<'a>, config: Seq<char>, ms: Seq<Option<Seq<char>>>)
    requires
        p.kind == PluginKind::VST,
        p.ident == "NadIR.vst3"@,
        spec_raw_strings(p) matches Some(list) && first_config(list, 0) == Some(config),
        regex_group1(NADIR_IR_PATTERN@, config) == Some(ms),
        spec_plugin_paths(p) is Some,
    ensures
        spec_plugin_paths(p) matches Some(ps) && {
            &&& forall|k: int|
                0 <= k < ms.len() && (#[trigger] ms[k] matches Some(x) && !"\"${documents}"@.is_prefix_of(
                    x,
                )) ==> exists|t: Seq<char>| nadir_match_names(ms[k], t) && ps.contains(t)
            &&& forall|q: Seq<char>|
                #[trigger] ps.contains(q) ==> exists|k: int|
                    0 <= k < ms.len() && nadir_match_names(#[trigger] ms[k], q)
        },
{
    reveal_strlit("NadIR.vst3");
    reveal_strlit("reasamplomatic.dll");
    assert(p.ident.len() == 10);
    assert("reasamplomatic.dll"@.len() == 18);
    assert(p.ident != "reasamplomatic.dll"@);
    assert(spec_plugin_paths(p) == nadir_paths_from(ms, 0, Seq::empty()));
    lemma_nadir_from(ms, 0, Seq::empty());
}

/// Whether the match `m` of the Sitala pattern names the path `q`: its text
/// is a JSON string that, percent-decoded, is a `file:///` URL whose path is
/// `q`.
pub open spec fn sitala_match_names(m: Option<Seq<char>>, q: Seq<char>) -> bool {
    m matches Some(x) && json_string_value(x) matches Some(t) && percent_decoded(t) matches Some(d)
        && "file:///"@.is_prefix_of(d) && q == d.skip("file:///"@.len() as int)
}

/// Reading the Sitala matches from `i` on: what was read before stays in
/// front, every later match that names a path has it among the paths, and
/// every path was read before or is named by a later match.
proof fn lemma_sitala_from(ms: Seq<Option<Seq<char>>>, i: int, acc: Seq<Seq<char>>)
    requires
        0 <= i <= ms.len(),
        sitala_paths_from(ms, i, acc) is Some,
    ensures
        sitala_paths_from(ms, i, acc) matches Some(ps) && {
            &&& ps.take(acc.len() as int) == acc
            &&& acc.len() <= ps.len()
            &&& forall|k: int, q: Seq<char>|
                i <= k < ms.len() && #[trigger] sitala_match_names(ms[k], q) ==> ps.contains(q)
            &&& forall|q: Seq<char>|
                #[trigger] ps.contains(q) ==> acc.contains(q) || exists|k: int|
                    i <= k < ms.len() && sitala_match_names(#[trigger] ms[k], q)
        },
    decreases ms.len() - i,
{
    if i < ms.len() {
        let next = match ms[i] {
            Some(m) => match percent_decoded(json_string_value(m).unwrap()) {
                Some(d) => if "file:///"@.is_prefix_of(d) {
                    acc.push(d.skip("file:///"@.len() as int))
                } else {
                    acc
                },
                None => acc,
            },
            None => acc,
        };
        lemma_sitala_from(ms, i + 1, next);
        let ps = sitala_paths_from(ms, i, acc).unwrap();
        assert(sitala_paths_from(ms, i + 1, next) == Some(ps));
        assert(ps.take(acc.len() as int) =~= acc) by {
            assert(ps.take(next.len() as int) == next);
            assert(next.take(acc.len() as int) =~= acc);
            assert(ps.take(acc.len() as int) =~= ps.take(next.len() as int).take(acc.len() as int));
        }
        assert forall|k: int, q: Seq<char>|
            i <= k < ms.len() && #[trigger] sitala_match_names(ms[k], q) implies ps.contains(q) by {
            if k == i {
                assert(next[acc.len() as int] == q);
                assert(ps[acc.len() as int] == q);
            }
        }
        assert forall|q: Seq<char>| #[trigger] ps.contains(q) implies acc.contains(q) || exists|
            k: int,
        | i <= k < ms.len() && sitala_match_names(#[trigger] ms[k], q) by {
            if next.contains(q) && !acc.contains(q) {
                let j = choose|j: int| 0 <= j < next.len() && next[j] == q;
                if j < acc.len() {
                    assert(acc[j] == q);
                } else {
                    assert(sitala_match_names(ms[i], q));
                }
            }
        }
    } else {
        assert(acc.take(acc.len() as int) =~= acc);
    }
}

/// A Sitala `VST` instance loads every sample that its configuration
/// names: where its paths can be read, the path of every match of the sound
/// pattern in its configuration string whose JSON string, percent-decoded,
/// is a `file:///` URL is one of its paths, and each of its paths is named
/// by such a match.
pub proof fn lemma_sitala_all_matches<'a>(p: PluginView<'a>, config: Seq<char>, ms: Seq<Option<Seq<char>>>)
    requires
        p.kind == PluginKind::VST,
        p.ident == "Sitala.dll"@,
        spec_raw_strings(p) matches Some(list) && first_config(list, 0) == Some(config),
        regex_group1(SITALA_SOUND_PATTERN@, config) == Some(ms),
        spec_plugin_paths(p) is Some,
    ensures
        spec_plugin_paths(p) matches Some(ps) && {
            &&& forall|k: int, q: Seq<char>|
                0 <= k < ms.len() && #[trigger] sitala_match_names(ms[k], q) ==> ps.contains(q)
            &&& forall|q: Seq<char>|
                #[trigger] ps.contains(q) ==> exists|k: int|
                    0 <= k < ms.len() && sitala_match_names(#[trigger] ms[k], q)
        },
{
    reveal_strlit("Sitala.dll");
    reveal_strlit("NadIR.vst3");
    reveal_strlit("reasamplomatic.dll");
    assert(p.ident.len() == 10);
    assert("reasamplomatic.dll"@.len() == 18);
    assert(p.ident != "reasamplomatic.dll"@);
    assert(p.ident[0] == 'S');
    assert(p.ident != "NadIR.vst3"@);
    assert(spec_plugin_paths(p) == sitala_paths_from(ms, 0, Seq::empty()));
    lemma_sitala_from(ms, 0, Seq::empty());
}

} // verus!
