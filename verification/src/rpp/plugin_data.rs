use vstd::prelude::*;

use super::element::Child;
use vstd::string::StringSliceAdditionalSpecFns;
use super::text::{chars_of, is_control, spec_is_control, string_from_chars, strings_view};

verus! {

/// What standard, padded base64 decoding of `src` gives, or `None` where
/// `src` is not valid base64.
pub uninterp spec fn base64_decoded(src: Seq<u8>) -> Option<Seq<u8>>;

/// Decodes `src` as standard base64 and appends the bytes to `dst`.
///
/// Trusted: calls `base64_simd::STANDARD.decode_append` on a `Vec<u8>`.
/// Its source decodes into the spare capacity and only then extends the
/// vector's length, so on an error `dst` holds what it held before; on
/// success the decoded bytes follow the old contents. What the decoding
/// gives is named by [`base64_decoded`].
#[verifier::external_body]
fn base64_decode_append(src: &[u8], dst: &mut Vec<u8>) -> (ok: bool)
    ensures
        match base64_decoded(src@) {
            Some(d) => ok && final(dst)@ == old(dst)@ + d,
            None => !ok && final(dst)@ == old(dst)@,
        },
{
    base64_simd::STANDARD.decode_append(src, dst).is_ok()
}

/// The text of each maximal valid UTF-8 part of `bytes`, in order, as
/// `<[u8]>::utf8_chunks` yields them (the invalid bytes between the parts
/// are dropped).
pub uninterp spec fn utf8_valid_parts(bytes: Seq<u8>) -> Seq<Seq<char>>;

/// The valid UTF-8 parts of `bytes`.
///
/// Trusted: calls std's `<[u8]>::utf8_chunks` and keeps the `valid()` text
/// of each chunk, in order; what that gives is named by [`utf8_valid_parts`].
#[verifier::external_body]
fn valid_utf8_parts(bytes: &[u8]) -> (r: Vec<String>)
    ensures
        strings_view(r@) == utf8_valid_parts(bytes@),
{
    bytes.utf8_chunks().map(|chunk| chunk.valid().to_string()).collect()
}

/// The base64 data of a plugin's lines, `children[i..]`, decoded and
/// appended to `acc`: each line contributes the decoding of its first value
/// (a line with no value and a sub-element contribute nothing); `None` where a
/// value is not valid base64.
pub open spec fn decode_lines_from<'a>(children: Seq<Child<'a>>, i: int, acc: Seq<u8>) -> Option<
    Seq<u8>,
>
    decreases children.len() - i,
{
    if i < 0 || i >= children.len() {
        Some(acc)
    } else {
        match children[i] {
            Child::Line(items) => {
                if items@.len() >= 1 {
                    match base64_decoded(items@[0].spec_bytes()) {
                        Some(d) => decode_lines_from(children, i + 1, acc + d),
                        None => None,
                    }
                } else {
                    decode_lines_from(children, i + 1, acc)
                }
            },
            Child::Element(_) => decode_lines_from(children, i + 1, acc),
        }
    }
}

/// Characters that end a piece of text in plugin data: the control
/// characters, line feed and carriage return among them only where
/// `at_line_breaks` holds.
pub open spec fn is_separator(c: char, at_line_breaks: bool) -> bool {
    spec_is_control(c) && (at_line_breaks || (c != '\n' && c != '\r'))
}

/// The separators of plugin data that the scan splits at: the control
/// characters other than line feed and carriage return.
pub open spec fn is_data_separator(c: char) -> bool {
    is_separator(c, false)
}

/// Splitting `s` at separators (see [`is_separator`]), left to right: the
/// finished pieces of at least five characters, and the piece still being
/// read.
pub open spec fn split_state(s: Seq<char>, at_line_breaks: bool) -> (Seq<Seq<char>>, Seq<char>)
    decreases s.len(),
{
    if s.len() == 0 {
        (Seq::empty(), Seq::empty())
    } else {
        let (kept, cur) = split_state(s.drop_last(), at_line_breaks);
        let c = s.last();
        if is_separator(c, at_line_breaks) {
            (if cur.len() >= 5 { kept.push(cur) } else { kept }, Seq::empty())
        } else {
            (kept, cur.push(c))
        }
    }
}

/// The pieces of `s` between separators that have at least five
/// characters, in order.
pub open spec fn long_pieces(s: Seq<char>, at_line_breaks: bool) -> Seq<Seq<char>> {
    let (kept, cur) = split_state(s, at_line_breaks);
    if cur.len() >= 5 {
        kept.push(cur)
    } else {
        kept
    }
}

/// The long pieces of each part, one part after the other.
pub open spec fn long_pieces_of_parts(parts: Seq<Seq<char>>, at_line_breaks: bool) -> Seq<
    Seq<char>,
>
    decreases parts.len(),
{
    if parts.len() == 0 {
        Seq::empty()
    } else {
        long_pieces_of_parts(parts.drop_last(), at_line_breaks) + long_pieces(
            parts.last(),
            at_line_breaks,
        )
    }
}

/// The strings found in the base64 data of a plugin's lines, split at
/// separators (see [`is_separator`]): the data is decoded, cut into its valid
/// UTF-8 parts, and each part split; the pieces of at least five characters
/// are kept, in order. Data that is not valid base64 gives no string.
pub open spec fn spec_split_data<'a>(children: Seq<Child<'a>>, at_line_breaks: bool) -> Seq<
    Seq<char>,
> {
    match decode_lines_from(children, 0, Seq::empty()) {
        Some(data) => long_pieces_of_parts(utf8_valid_parts(data), at_line_breaks),
        None => Seq::empty(),
    }
}

/// The strings found in the base64 data of a plugin's lines, split at
/// control characters other than line breaks (see [`spec_split_data`]).
pub open spec fn spec_data_strings<'a>(children: Seq<Child<'a>>) -> Seq<Seq<char>> {
    spec_split_data(children, false)
}

/// The pieces of at least five characters between separators of `s`,
/// appended to `out`.
fn push_long_pieces(s: &str, at_line_breaks: bool, out: &mut Vec<String>)
    ensures
        strings_view(final(out)@) == strings_view(old(out)@) + long_pieces(s@, at_line_breaks),
{
    let cs = chars_of(s);
    let ghost out0 = strings_view(out@);
    let mut cur: Vec<char> = Vec::new();
    let mut i: usize = 0;
    while i < cs.len()
        invariant
            i <= cs@.len(),
            cs@ == s@,
            split_state(cs@.take(i as int), at_line_breaks) == (strings_view(out@).skip(out0.len() as int), cur@),
            strings_view(out@).take(out0.len() as int) == out0,
            out0.len() <= out@.len(),
        decreases cs@.len() - i,
    {
        let c = cs[i];
        proof {
            assert(cs@.take(i + 1).drop_last() =~= cs@.take(i as int));
            assert(cs@.take(i + 1).last() == c);
        }
        if is_control(c) && (at_line_breaks || (c != '\n' && c != '\r')) {
            if cur.len() >= 5 {
                let piece = string_from_chars(cur.as_slice());
                let ghost before = out@;
                out.push(piece);
                proof {
                    assert(strings_view(out@) =~= strings_view(before).push(piece@));
                    assert(strings_view(out@).skip(out0.len() as int) =~= strings_view(before).skip(
                        out0.len() as int,
                    ).push(piece@));
                    assert(strings_view(out@).take(out0.len() as int) =~= strings_view(before).take(
                        out0.len() as int,
                    ));
                }
            }
            cur = Vec::new();
        } else {
            cur.push(c);
        }
        i = i + 1;
    }
    proof {
        assert(cs@.take(cs@.len() as int) =~= cs@);
    }
    if cur.len() >= 5 {
        let piece = string_from_chars(cur.as_slice());
        let ghost before = out@;
        out.push(piece);
        proof {
            assert(strings_view(out@) =~= strings_view(before).push(piece@));
            assert(strings_view(before) =~= out0 + strings_view(before).skip(out0.len() as int));
        }
    } else {
        proof {
            assert(strings_view(out@) =~= out0 + strings_view(out@).skip(out0.len() as int));
        }
    }
}

/// The long pieces of each of `parts`, split at separators (see
/// [`long_pieces_of_parts`]), one part after the other.
pub fn split_parts(parts: &[String], at_line_breaks: bool) -> (r: Vec<String>)
    ensures
        strings_view(r@) == long_pieces_of_parts(strings_view(parts@), at_line_breaks),
{
    let ghost pv = strings_view(parts@);
    let mut out: Vec<String> = Vec::new();
    let mut j: usize = 0;
    while j < parts.len()
        invariant
            j <= parts@.len(),
            pv == strings_view(parts@),
            strings_view(out@) == long_pieces_of_parts(pv.take(j as int), at_line_breaks),
        decreases parts@.len() - j,
    {
        proof {
            assert(pv.take(j + 1).drop_last() =~= pv.take(j as int));
        }
        push_long_pieces(parts[j].as_str(), at_line_breaks, &mut out);
        j = j + 1;
    }
    proof {
        assert(pv.take(parts@.len() as int) =~= pv);
    }
    out
}

/// The base64 data of a plugin's lines, decoded (see [`decode_lines_from`]).
fn decode_lines(children: &[Child]) -> (r: Option<Vec<u8>>)
    ensures
        match decode_lines_from(children@, 0, Seq::empty()) {
            Some(d) => r matches Some(v) && v@ == d,
            None => r is None,
        },
{
    let mut data: Vec<u8> = Vec::new();
    let mut i: usize = 0;
    while i < children.len()
        invariant
            i <= children@.len(),
            decode_lines_from(children@, 0, Seq::empty()) == decode_lines_from(
                children@,
                i as int,
                data@,
            ),
        decreases children@.len() - i,
    {
        if let Child::Line(items) = &children[i] {
            if items.len() >= 1 {
                let line: &str = items[0];
                if !base64_decode_append(line.as_bytes(), &mut data) {
                    return None;
                }
            }
        }
        i = i + 1;
    }
    Some(data)
}

/// The strings found in the base64 data of a plugin's lines, split at
/// separators (see [`spec_split_data`]).
pub fn split_data(children: &[Child], at_line_breaks: bool) -> (r: Vec<String>)
    ensures
        strings_view(r@) == spec_split_data(children@, at_line_breaks),
{
    match decode_lines(children) {
        Some(data) => {
            let parts = valid_utf8_parts(data.as_slice());
            split_parts(parts.as_slice(), at_line_breaks)
        },
        None => Vec::new(),
    }
}

/// The strings found in the base64 data of a plugin's lines (see
/// [`spec_data_strings`]).
pub fn b64_extract_strings(children: &[Child]) -> (r: Vec<String>)
    ensures
        strings_view(r@) == spec_data_strings(children@),
{
    split_data(children, false)
}

/// Whether `x` is a piece that the extraction keeps: at least five
/// characters, none of them a separator.
pub open spec fn is_kept_piece(x: Seq<char>, at_line_breaks: bool) -> bool {
    x.len() >= 5 && forall|k: int|
        0 <= k < x.len() ==> !#[trigger] is_separator(x[k], at_line_breaks)
}

/// Every finished piece of a split is kept, and the piece being read holds
/// no separator.
proof fn lemma_split_state_kept(s: Seq<char>, b: bool)
    ensures
        forall|j: int| 0 <= j < split_state(s, b).0.len() ==> #[trigger] is_kept_piece(split_state(s, b).0[j], b),
        forall|k: int|
            0 <= k < split_state(s, b).1.len() ==> !#[trigger] is_separator(split_state(s, b).1[k], b),
    decreases s.len(),
{
    if s.len() > 0 {
        lemma_split_state_kept(s.drop_last(), b);
        let (kept, cur) = split_state(s.drop_last(), b);
        let c = s.last();
        if !is_separator(c, b) {
            assert forall|k: int| 0 <= k < cur.push(c).len() implies !#[trigger] is_separator(
                cur.push(c)[k],
                b,
            ) by {
                if k < cur.len() {
                    assert(cur.push(c)[k] == cur[k]);
                }
            }
        }
    }
}

/// Every string found in the base64 data of a plugin's lines has at least
/// five characters and holds no separator: no control character, or, where
/// line breaks do not split, none other than a line break.
pub proof fn lemma_data_strings_kept<'a>(children: Seq<Child<'a>>, at_line_breaks: bool, j: int)
    requires
        0 <= j < spec_split_data(children, at_line_breaks).len(),
    ensures
        is_kept_piece(spec_split_data(children, at_line_breaks)[j], at_line_breaks),
{
    if let Some(data) = decode_lines_from(children, 0, Seq::empty()) {
        lemma_parts_kept(utf8_valid_parts(data), at_line_breaks, j);
    }
}

/// Every piece that the extraction keeps from a list of parts is kept.
proof fn lemma_parts_kept(parts: Seq<Seq<char>>, b: bool, j: int)
    requires
        0 <= j < long_pieces_of_parts(parts, b).len(),
    ensures
        is_kept_piece(long_pieces_of_parts(parts, b)[j], b),
    decreases parts.len(),
{
    if parts.len() > 0 {
        let front = long_pieces_of_parts(parts.drop_last(), b);
        if j < front.len() {
            lemma_parts_kept(parts.drop_last(), b, j);
        } else {
            let s = parts.last();
            lemma_split_state_kept(s, b);
            let (kept, cur) = split_state(s, b);
            let x = long_pieces(s, b)[j - front.len()];
            if j - front.len() < kept.len() {
                assert(x == kept[j - front.len()]);
            }
        }
    }
}

/// Whether `x` is a run of consecutive characters of `s`.
pub open spec fn is_substring(x: Seq<char>, s: Seq<char>) -> bool {
    exists|a: int, b: int| 0 <= a <= b <= s.len() && #[trigger] s.subrange(a, b) == x
}

/// A run of consecutive characters of `s` is one of `s.push(c)` too.
proof fn lemma_substring_push(x: Seq<char>, s: Seq<char>, c: char)
    requires
        is_substring(x, s),
    ensures
        is_substring(x, s.push(c)),
{
    let (a, b) = choose|a: int, b: int| 0 <= a <= b <= s.len() && #[trigger] s.subrange(a, b) == x;
    assert(s.push(c).subrange(a, b) =~= s.subrange(a, b));
}

/// Every finished piece of a split is a run of consecutive characters of
/// the text, and the piece being read is its end.
proof fn lemma_split_state_within(s: Seq<char>, b: bool)
    ensures
        forall|j: int|
            0 <= j < split_state(s, b).0.len() ==> is_substring(#[trigger] split_state(s, b).0[j], s),
        split_state(s, b).1.len() <= s.len(),
        split_state(s, b).1 == s.subrange(s.len() - split_state(s, b).1.len(), s.len() as int),
    decreases s.len(),
{
    if s.len() > 0 {
        let t = s.drop_last();
        let c = s.last();
        lemma_split_state_within(t, b);
        let (kept, cur) = split_state(t, b);
        assert(t.push(c) =~= s);
        assert forall|j: int| 0 <= j < kept.len() implies is_substring(#[trigger] kept[j], s) by {
            lemma_substring_push(kept[j], t, c);
        }
        if is_separator(c, b) {
            assert(s.subrange(t.len() - cur.len(), t.len() as int) =~= cur);
            assert(is_substring(cur, s));
            assert(s.subrange(s.len() as int, s.len() as int) =~= Seq::<char>::empty());
        } else {
            assert(s.subrange(s.len() - (cur.len() + 1), s.len() as int) =~= cur.push(c));
        }
    }
}

/// Every long piece of `s` is a run of consecutive characters of `s`.
proof fn lemma_long_pieces_within(s: Seq<char>, b: bool, j: int)
    requires
        0 <= j < long_pieces(s, b).len(),
    ensures
        is_substring(long_pieces(s, b)[j], s),
{
    lemma_split_state_within(s, b);
    let (kept, cur) = split_state(s, b);
    if j < kept.len() {
        assert(long_pieces(s, b)[j] == kept[j]);
    } else {
        assert(s.subrange(s.len() - cur.len(), s.len() as int) == cur);
    }
}

/// Every piece that the extraction keeps from a list of parts is a run of
/// consecutive characters of one of the parts.
proof fn lemma_parts_within(parts: Seq<Seq<char>>, b: bool, j: int)
    requires
        0 <= j < long_pieces_of_parts(parts, b).len(),
    ensures
        exists|p: int|
            0 <= p < parts.len() && is_substring(
                long_pieces_of_parts(parts, b)[j],
                #[trigger] parts[p],
            ),
    decreases parts.len(),
{
    if parts.len() > 0 {
        let init = parts.drop_last();
        let front = long_pieces_of_parts(init, b);
        if j < front.len() {
            lemma_parts_within(init, b, j);
            let p = choose|p: int|
                0 <= p < init.len() && is_substring(front[j], #[trigger] init[p]);
            assert(parts[p] == init[p]);
        } else {
            lemma_long_pieces_within(parts.last(), b, j - front.len());
            assert(parts[parts.len() - 1] == parts.last());
        }
    }
}

/// Every string found in the base64 data of a plugin's lines is a run of
/// consecutive characters of one valid UTF-8 part of the decoded data.
pub proof fn lemma_data_strings_within_parts<'a>(
    children: Seq<Child<'a>>,
    at_line_breaks: bool,
    j: int,
)
    requires
        0 <= j < spec_split_data(children, at_line_breaks).len(),
    ensures
        decode_lines_from(children, 0, Seq::empty()) matches Some(data) && exists|p: int|
            0 <= p < utf8_valid_parts(data).len() && is_substring(
                spec_split_data(children, at_line_breaks)[j],
                #[trigger] utf8_valid_parts(data)[p],
            ),
{
    let data = decode_lines_from(children, 0, Seq::empty()).unwrap();
    lemma_parts_within(utf8_valid_parts(data), at_line_breaks, j);
}

/// Whether `c` is a control character by its code point: U+0000 to U+001F
/// or U+007F to U+009F (Unicode's `Cc`, what `char::is_control` tests).
pub open spec fn is_cc(c: char) -> bool {
    let n = c as u32;
    n <= 0x1f || (0x7f <= n && n <= 0x9f)
}

/// Every string found in the base64 data of a plugin's lines has at least
/// five characters and holds no control character (tab included) but line
/// feed and carriage return; where line breaks split too, it holds none at
/// all.
pub proof fn lemma_data_strings_no_control<'a>(
    children: Seq<Child<'a>>,
    at_line_breaks: bool,
    j: int,
)
    requires
        0 <= j < spec_split_data(children, at_line_breaks).len(),
    ensures
        spec_split_data(children, at_line_breaks)[j].len() >= 5,
        forall|k: int|
            0 <= k < spec_split_data(children, at_line_breaks)[j].len() && #[trigger] is_cc(
                spec_split_data(children, at_line_breaks)[j][k],
            ) ==> !at_line_breaks && (spec_split_data(children, at_line_breaks)[j][k] == '\n'
                || spec_split_data(children, at_line_breaks)[j][k] == '\r'),
{
    lemma_data_strings_kept(children, at_line_breaks, j);
    let x = spec_split_data(children, at_line_breaks)[j];
    assert forall|k: int| 0 <= k < x.len() && #[trigger] is_cc(x[k]) implies !at_line_breaks && (
    x[k] == '\n' || x[k] == '\r') by {
        assert(!is_separator(x[k], at_line_breaks));
    }
}

/// Whether `c` splits pieces of text: a control character (see [`is_cc`]),
/// line feed and carriage return only where `at_line_breaks` holds.
pub open spec fn splits_at(c: char, at_line_breaks: bool) -> bool {
    is_cc(c) && (at_line_breaks || (c != '\n' && c != '\r'))
}

/// Text with no separator in it is added to the piece being read.
proof fn lemma_split_no_separator(s: Seq<char>, t: Seq<char>, b: bool)
    requires
        forall|k: int| 0 <= k < t.len() ==> !#[trigger] splits_at(t[k], b),
    ensures
        split_state(s + t, b) == (split_state(s, b).0, split_state(s, b).1 + t),
    decreases t.len(),
{
    if t.len() == 0 {
        assert(s + t =~= s);
        assert(split_state(s, b).1 + t =~= split_state(s, b).1);
    } else {
        let u = t.drop_last();
        lemma_split_no_separator(s, u, b);
        assert((s + t).drop_last() =~= s + u);
        assert((s + t).last() == t.last());
        assert(!splits_at(t[t.len() - 1], b));
        assert(split_state(s, b).1 + u + seq![t.last()] =~= split_state(s, b).1 + t);
        assert((split_state(s, b).1 + u).push(t.last()) =~= split_state(s, b).1 + t);
    }
}

/// Splitting text that holds a separator `c` between `a` and `b2`.
proof fn lemma_split_at_separator(a: Seq<char>, c: char, b2: Seq<char>, b: bool)
    requires
        splits_at(c, b),
    ensures
        split_state(a.push(c) + b2, b) == (long_pieces(a, b) + split_state(b2, b).0, split_state(
            b2,
            b,
        ).1),
    decreases b2.len(),
{
    if b2.len() == 0 {
        assert(a.push(c) + b2 =~= a.push(c));
        assert(a.push(c).drop_last() =~= a);
        assert(long_pieces(a, b) + Seq::<Seq<char>>::empty() =~= long_pieces(a, b));
    } else {
        let u = b2.drop_last();
        lemma_split_at_separator(a, c, u, b);
        assert((a.push(c) + b2).drop_last() =~= a.push(c) + u);
        assert((a.push(c) + b2).last() == b2.last());
        let (k, cur) = split_state(u, b);
        assert((long_pieces(a, b) + k).push(cur) =~= long_pieces(a, b) + k.push(cur));
    }
}

/// Text with no separator is one piece, kept where it has at least five
/// characters.
pub proof fn lemma_pieces_of_unbroken_text(s: Seq<char>, at_line_breaks: bool)
    requires
        forall|k: int| 0 <= k < s.len() ==> !#[trigger] splits_at(s[k], at_line_breaks),
    ensures
        long_pieces_of_parts(seq![s], at_line_breaks) == if s.len() >= 5 {
            seq![s]
        } else {
            Seq::<Seq<char>>::empty()
        },
{
    lemma_split_no_separator(Seq::empty(), s, at_line_breaks);
    assert(Seq::<char>::empty() + s =~= s);
    assert(split_state(Seq::<char>::empty(), at_line_breaks) == (
        Seq::<Seq<char>>::empty(),
        Seq::<char>::empty(),
    ));
    assert(Seq::<Seq<char>>::empty().push(s) =~= seq![s]);
    lemma_one_part(s, at_line_breaks);
}

/// A separator (a control character; a line break only where line breaks
/// split) cuts text in two: the pieces of `a`, `c` and `b2` are the pieces of
/// `a` followed by those of `b2`.
pub proof fn lemma_pieces_split_at_separator(a: Seq<char>, c: char, b2: Seq<char>, at_line_breaks: bool)
    requires
        splits_at(c, at_line_breaks),
    ensures
        long_pieces_of_parts(seq![a.push(c) + b2], at_line_breaks) == long_pieces_of_parts(
            seq![a],
            at_line_breaks,
        ) + long_pieces_of_parts(seq![b2], at_line_breaks),
{
    lemma_split_at_separator(a, c, b2, at_line_breaks);
    lemma_one_part(a.push(c) + b2, at_line_breaks);
    lemma_one_part(a, at_line_breaks);
    lemma_one_part(b2, at_line_breaks);
    let (k, cur) = split_state(b2, at_line_breaks);
    assert((long_pieces(a, at_line_breaks) + k).push(cur) =~= long_pieces(a, at_line_breaks) + k.push(
        cur,
    ));
}

/// The pieces of one part are its long pieces.
proof fn lemma_one_part(s: Seq<char>, b: bool)
    ensures
        long_pieces_of_parts(seq![s], b) == long_pieces(s, b),
{
    assert(seq![s].drop_last() =~= Seq::<Seq<char>>::empty());
    assert(seq![s].last() == s);
    assert(long_pieces_of_parts(Seq::<Seq<char>>::empty(), b) == Seq::<Seq<char>>::empty());
    assert(Seq::<Seq<char>>::empty() + long_pieces(s, b) =~= long_pieces(s, b));
}

/// The pieces of the parts `p1` followed by the parts `p2` are those of `p1`
/// followed by those of `p2`.
pub proof fn lemma_pieces_of_parts_concat(p1: Seq<Seq<char>>, p2: Seq<Seq<char>>, at_line_breaks: bool)
    ensures
        long_pieces_of_parts(p1 + p2, at_line_breaks) == long_pieces_of_parts(p1, at_line_breaks)
            + long_pieces_of_parts(p2, at_line_breaks),
    decreases p2.len(),
{
    if p2.len() == 0 {
        assert(p1 + p2 =~= p1);
        assert(long_pieces_of_parts(p1, at_line_breaks) + Seq::<Seq<char>>::empty()
            =~= long_pieces_of_parts(p1, at_line_breaks));
    } else {
        lemma_pieces_of_parts_concat(p1, p2.drop_last(), at_line_breaks);
        assert((p1 + p2).drop_last() =~= p1 + p2.drop_last());
        assert((p1 + p2).last() == p2.last());
        assert(long_pieces_of_parts(p1, at_line_breaks) + long_pieces_of_parts(
            p2.drop_last(),
            at_line_breaks,
        ) + long_pieces(p2.last(), at_line_breaks) =~= long_pieces_of_parts(p1, at_line_breaks)
            + (long_pieces_of_parts(p2.drop_last(), at_line_breaks) + long_pieces(
            p2.last(),
            at_line_breaks,
        )));
    }
}

} // verus!
