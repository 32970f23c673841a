use vstd::prelude::*;

use super::text::chars_of;

verus! {

/// A path as std's `Path` compares it: the sequence of its components. The
/// root is written `/`, a leading current directory `.`, a parent directory
/// `..`, and a normal component its text (which never is `/`, `.` or `..`).
pub type PathKey = Seq<Seq<char>>;

/// The component that starts a path: the root for a path that starts with
/// `/`, the current directory for `.` and paths that start with `./`, else
/// none.
pub open spec fn lead_components(s: Seq<char>) -> PathKey {
    if s.len() > 0 && s[0] == '/' {
        seq![seq!['/']]
    } else if s =~= seq!['.'] || (s.len() >= 2 && s[0] == '.' && s[1] == '/') {
        seq![seq!['.']]
    } else {
        Seq::empty()
    }
}

/// Whether a piece between separators is a component: pieces that are empty
/// (from repeated or trailing separators) or `.` are not.
pub open spec fn is_component(piece: Seq<char>) -> bool {
    piece.len() > 0 && !(piece =~= seq!['.'])
}

/// Reading `s` from left to right: the components after the separators
/// read so far, and the piece since the last separator.
pub open spec fn pieces_state(s: Seq<char>) -> (PathKey, Seq<char>)
    decreases s.len(),
{
    if s.len() == 0 {
        (Seq::empty(), Seq::empty())
    } else {
        let (comps, cur) = pieces_state(s.drop_last());
        let c = s.last();
        if c == '/' {
            (if is_component(cur) { comps.push(cur) } else { comps }, Seq::empty())
        } else {
            (comps, cur.push(c))
        }
    }
}

/// The components of the path `s`, with `/` as the separator, as std's
/// `Path::components` gives them on Unix-like systems: repeated separators,
/// a trailing separator and `.` components other than a leading one are left
/// out.
pub open spec fn path_key(s: Seq<char>) -> PathKey {
    let (comps, cur) = pieces_state(s);
    lead_components(s) + if is_component(cur) {
        comps.push(cur)
    } else {
        comps
    }
}

/// The order of two texts: by their characters, a prefix first; `-1`, `0`
/// or `1`. For UTF-8 text this is the order of its bytes.
pub open spec fn text_order(x: Seq<char>, y: Seq<char>) -> int
    decreases x.len(),
{
    if x.len() == 0 {
        if y.len() == 0 {
            0
        } else {
            -1
        }
    } else if y.len() == 0 {
        1
    } else if x[0] < y[0] {
        -1
    } else if x[0] > y[0] {
        1
    } else {
        text_order(x.drop_first(), y.drop_first())
    }
}

/// The rank of a component in std's order of components: the root, then
/// the current directory, then the parent directory, then normal components.
pub open spec fn component_rank(c: Seq<char>) -> int {
    if c =~= seq!['/'] {
        0
    } else if c =~= seq!['.'] {
        1
    } else if c =~= seq!['.', '.'] {
        2
    } else {
        3
    }
}

/// The order of two components: by rank, normal components by their text.
pub open spec fn component_order(x: Seq<char>, y: Seq<char>) -> int {
    if component_rank(x) < component_rank(y) {
        -1
    } else if component_rank(x) > component_rank(y) {
        1
    } else if component_rank(x) == 3 {
        text_order(x, y)
    } else {
        0
    }
}

/// The order of two paths, as std's `Ord` for `Path` orders them: by their
/// components, one after the other, a prefix first.
pub open spec fn key_order(a: PathKey, b: PathKey) -> int
    decreases a.len(),
{
    if a.len() == 0 {
        if b.len() == 0 {
            0
        } else {
            -1
        }
    } else if b.len() == 0 {
        1
    } else if component_order(a[0], b[0]) != 0 {
        component_order(a[0], b[0])
    } else {
        key_order(a.drop_first(), b.drop_first())
    }
}

/// Text order is an order: it gives `-1`, `0` or `1`, swapping the texts
/// negates it, `0` means equal texts, and `-1` is transitive.
pub proof fn lemma_text_order(x: Seq<char>, y: Seq<char>, z: Seq<char>)
    ensures
        -1 <= text_order(x, y) <= 1,
        text_order(x, y) == -text_order(y, x),
        text_order(x, y) == 0 <==> x == y,
        text_order(x, y) == -1 && text_order(y, z) == -1 ==> text_order(x, z) == -1,
    decreases x.len(),
{
    if x.len() > 0 && y.len() > 0 {
        if z.len() > 0 {
            lemma_text_order(x.drop_first(), y.drop_first(), z.drop_first());
        } else {
            lemma_text_order(x.drop_first(), y.drop_first(), z);
        }
        if text_order(x, y) == 0 {
            assert(x[0] == y[0]);
            assert(x.drop_first() == y.drop_first());
            assert(x =~= seq![x[0]] + x.drop_first());
            assert(y =~= seq![y[0]] + y.drop_first());
            assert(x =~= y);
        }
    }
    if x.len() == 0 && y.len() == 0 {
        assert(x =~= y);
    }
    if x == y {
        lemma_text_order_refl(x);
    }
}

/// Every text is equal to itself in text order.
proof fn lemma_text_order_refl(x: Seq<char>)
    ensures
        text_order(x, x) == 0,
    decreases x.len(),
{
    if x.len() > 0 {
        lemma_text_order_refl(x.drop_first());
    }
}

/// Every path is equal to itself in path order.
proof fn lemma_key_order_refl(a: PathKey)
    ensures
        key_order(a, a) == 0,
    decreases a.len(),
{
    if a.len() > 0 {
        lemma_text_order_refl(a[0]);
        lemma_key_order_refl(a.drop_first());
    }
}

/// Component order is an order (see [`lemma_text_order`]).
pub proof fn lemma_component_order(x: Seq<char>, y: Seq<char>, z: Seq<char>)
    ensures
        -1 <= component_order(x, y) <= 1,
        component_order(x, y) == -component_order(y, x),
        component_order(x, y) == 0 <==> x == y,
        component_order(x, y) == -1 && component_order(y, z) == -1 ==> component_order(x, z) == -1,
{
    lemma_text_order(x, y, z);
    lemma_text_order(y, x, z);
    lemma_text_order(x, z, y);
    if component_rank(x) == component_rank(y) && component_rank(x) < 3 {
        assert(x =~= y);
    }
}

/// Path order is an order (see [`lemma_text_order`]).
pub proof fn lemma_key_order(a: PathKey, b: PathKey, c: PathKey)
    ensures
        -1 <= key_order(a, b) <= 1,
        key_order(a, b) == -key_order(b, a),
        key_order(a, b) == 0 <==> a == b,
        key_order(a, b) == -1 && key_order(b, c) == -1 ==> key_order(a, c) == -1,
    decreases a.len(),
{
    if a.len() > 0 && b.len() > 0 {
        let c0 = if c.len() > 0 { c[0] } else { a[0] };
        lemma_component_order(a[0], b[0], c0);
        if c.len() > 0 {
            lemma_component_order(a[0], c[0], b[0]);
            lemma_component_order(b[0], c[0], a[0]);
            lemma_key_order(a.drop_first(), b.drop_first(), c.drop_first());
        } else {
            lemma_key_order(a.drop_first(), b.drop_first(), c);
        }
        if key_order(a, b) == 0 {
            assert(a[0] == b[0]);
            assert(a.drop_first() == b.drop_first());
            assert(a =~= seq![a[0]] + a.drop_first());
            assert(b =~= seq![b[0]] + b.drop_first());
            assert(a =~= b);
        }
    }
    if a.len() == 0 && b.len() == 0 {
        assert(a =~= b);
    }
    if a == b {
        lemma_key_order_refl(a);
    }
}

/// The path key of a list of component texts.
pub open spec fn key_view(k: Seq<Vec<char>>) -> PathKey {
    k.map_values(|c: Vec<char>| c@)
}

/// The components of the path `s` (see [`path_key`]).
pub fn path_key_of(s: &str) -> (r: Vec<Vec<char>>)
    ensures
        key_view(r@) == path_key(s@),
{
    let cs = chars_of(s);
    let mut out: Vec<Vec<char>> = Vec::new();
    if cs.len() > 0 && cs[0] == '/' {
        let mut root: Vec<char> = Vec::new();
        root.push('/');
        out.push(root);
        assert(key_view(out@) =~= seq![seq!['/']]);
    } else if (cs.len() == 1 && cs[0] == '.') || (cs.len() >= 2 && cs[0] == '.' && cs[1] == '/') {
        let mut cur_dir: Vec<char> = Vec::new();
        cur_dir.push('.');
        out.push(cur_dir);
        assert(key_view(out@) =~= seq![seq!['.']]);
        assert(cs@.len() == 1 ==> cs@ =~= seq!['.']);
    } else {
        assert(key_view(out@) =~= Seq::<Seq<char>>::empty());
        assert(!(s@ =~= seq!['.']));
    }
    let ghost lead = key_view(out@);
    proof {
        assert(lead =~= lead_components(s@));
    }
    let mut cur: Vec<char> = Vec::new();
    let mut i: usize = 0;
    while i < cs.len()
        invariant
            i <= cs@.len(),
            cs@ == s@,
            lead == lead_components(s@),
            key_view(out@).len() >= lead.len(),
            key_view(out@) == lead + pieces_state(cs@.take(i as int)).0,
            cur@ == pieces_state(cs@.take(i as int)).1,
        decreases cs@.len() - i,
    {
        let c = cs[i];
        proof {
            assert(cs@.take(i + 1).drop_last() =~= cs@.take(i as int));
            assert(cs@.take(i + 1).last() == c);
        }
        if c == '/' {
            if cur.len() > 0 && !(cur.len() == 1 && cur[0] == '.') {
                let ghost before = key_view(out@);
                let piece = cur;
                out.push(piece);
                proof {
                    assert(key_view(out@) =~= before.push(piece@));
                    assert(is_component(piece@));
                    assert(lead + pieces_state(cs@.take(i as int)).0.push(piece@) =~= (lead
                        + pieces_state(cs@.take(i as int)).0).push(piece@));
                }
            } else {
                proof {
                    assert(!is_component(cur@));
                }
            }
            cur = Vec::new();
        } else {
            cur.push(c);
        }
        i = i + 1;
    }
    proof {
        assert(cs@.take(cs@.len() as int) =~= cs@);
    }
    if cur.len() > 0 && !(cur.len() == 1 && cur[0] == '.') {
        let ghost before = key_view(out@);
        let piece = cur;
        out.push(piece);
        proof {
            assert(key_view(out@) =~= before.push(piece@));
            assert(is_component(piece@));
            assert(lead + pieces_state(cs@).0.push(piece@) =~= (lead + pieces_state(cs@).0).push(
                piece@,
            ));
        }
    } else {
        proof {
            assert(!is_component(cur@));
        }
    }
    out
}

/// The order of two texts (see [`text_order`]).
fn text_compare(x: &Vec<char>, y: &Vec<char>) -> (r: i8)
    ensures
        r as int == text_order(x@, y@),
{
    let mut i: usize = 0;
    assert(x@.skip(0) =~= x@);
    assert(y@.skip(0) =~= y@);
    while i < x.len() && i < y.len()
        invariant
            i <= x@.len(),
            i <= y@.len(),
            text_order(x@, y@) == text_order(x@.skip(i as int), y@.skip(i as int)),
        decreases x@.len() - i,
    {
        if x[i] < y[i] {
            return -1;
        } else if x[i] > y[i] {
            return 1;
        }
        proof {
            assert(x@.skip(i as int).drop_first() =~= x@.skip(i + 1));
            assert(y@.skip(i as int).drop_first() =~= y@.skip(i + 1));
        }
        i = i + 1;
    }
    if i < y.len() {
        -1
    } else if i < x.len() {
        1
    } else {
        0
    }
}

/// The rank of a component (see [`component_rank`]).
fn rank_of(c: &Vec<char>) -> (r: i8)
    ensures
        r as int == component_rank(c@),
{
    if c.len() == 1 && c[0] == '/' {
        assert(c@ =~= seq!['/']);
        0
    } else if c.len() == 1 && c[0] == '.' {
        assert(c@ =~= seq!['.']);
        1
    } else if c.len() == 2 && c[0] == '.' && c[1] == '.' {
        assert(c@ =~= seq!['.', '.']);
        2
    } else {
        3
    }
}

/// The order of two components (see [`component_order`]).
fn component_compare(x: &Vec<char>, y: &Vec<char>) -> (r: i8)
    ensures
        r as int == component_order(x@, y@),
{
    let rx = rank_of(x);
    let ry = rank_of(y);
    if rx < ry {
        -1
    } else if rx > ry {
        1
    } else if rx == 3 {
        text_compare(x, y)
    } else {
        0
    }
}

/// The order of two paths given by their components (see [`key_order`]).
pub fn key_compare(a: &Vec<Vec<char>>, b: &Vec<Vec<char>>) -> (r: i8)
    ensures
        r as int == key_order(key_view(a@), key_view(b@)),
{
    let ghost av = key_view(a@);
    let ghost bv = key_view(b@);
    let mut i: usize = 0;
    assert(av.skip(0) =~= av);
    assert(bv.skip(0) =~= bv);
    while i < a.len() && i < b.len()
        invariant
            i <= a@.len(),
            i <= b@.len(),
            av == key_view(a@),
            bv == key_view(b@),
            key_order(av, bv) == key_order(av.skip(i as int), bv.skip(i as int)),
        decreases a@.len() - i,
    {
        let c = component_compare(&a[i], &b[i]);
        proof {
            assert(av.skip(i as int)[0] == a@[i as int]@);
            assert(bv.skip(i as int)[0] == b@[i as int]@);
            assert(av.skip(i as int).drop_first() =~= av.skip(i + 1));
            assert(bv.skip(i as int).drop_first() =~= bv.skip(i + 1));
        }
        if c != 0 {
            return c;
        }
        i = i + 1;
    }
    if i < b.len() {
        -1
    } else if i < a.len() {
        1
    } else {
        0
    }
}

} // verus!
