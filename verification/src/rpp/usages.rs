use vstd::prelude::*;

use super::path_key::{key_compare, key_order, key_view, lemma_key_order, path_key, path_key_of, PathKey};

verus! {

/// How a project uses a file: a set of flags.
#[derive(Debug, Clone, Copy, PartialEq, Eq, Hash, Structural)]
pub struct Usages {
    bits: u8,
}

/// The bits of the item flag: the file is the media of an item on a track.
pub const ITEM_BITS: u8 = 0b00000001;

/// The bits of the plugin flag: a plugin instance loads the file.
pub const PLUGIN_BITS: u8 = 0b00000100;

/// The bits of the record-path flag: the project records into this directory.
pub const RECORD_PATH_BITS: u8 = 0b01000000;

/// The bits of the metronome flag: the metronome plays the file.
pub const METRONOME_BITS: u8 = 0b10000000;

impl View for Usages {
    type V = u8;

    /// The flags, as bits.
    closed spec fn view(&self) -> u8 {
        self.bits
    }
}

/// Whether every flag of `b` is set in `a`.
pub open spec fn has_flags(a: u8, b: u8) -> bool {
    a & b == b
}

/// The four-column text the scanner prints for a set of flags: `I`, `P`,
/// `R` and `M` for the item, plugin, record-path and metronome flags, in
/// that order, each replaced by a space when the flag is not set.
pub open spec fn display_text(bits: u8) -> Seq<char> {
    seq![
        if has_flags(bits, ITEM_BITS) { 'I' } else { ' ' },
        if has_flags(bits, PLUGIN_BITS) { 'P' } else { ' ' },
        if has_flags(bits, RECORD_PATH_BITS) { 'R' } else { ' ' },
        if has_flags(bits, METRONOME_BITS) { 'M' } else { ' ' },
    ]
}

impl Usages {
    /// No flag.
    pub fn empty() -> (r: Usages)
        ensures
            r@ == 0,
    {
        Usages { bits: 0 }
    }

    /// The item flag.
    pub fn item() -> (r: Usages)
        ensures
            r@ == ITEM_BITS,
    {
        Usages { bits: ITEM_BITS }
    }

    /// The plugin flag.
    pub fn plugin() -> (r: Usages)
        ensures
            r@ == PLUGIN_BITS,
    {
        Usages { bits: PLUGIN_BITS }
    }

    /// The record-path flag.
    pub fn record_path() -> (r: Usages)
        ensures
            r@ == RECORD_PATH_BITS,
    {
        Usages { bits: RECORD_PATH_BITS }
    }

    /// The metronome flag.
    pub fn metronome() -> (r: Usages)
        ensures
            r@ == METRONOME_BITS,
    {
        Usages { bits: METRONOME_BITS }
    }

    /// Every known flag: item, plugin, record-path and metronome.
    pub fn all() -> (r: Usages)
        ensures
            r@ == ITEM_BITS | PLUGIN_BITS | RECORD_PATH_BITS | METRONOME_BITS,
    {
        Usages { bits: ITEM_BITS | PLUGIN_BITS | RECORD_PATH_BITS | METRONOME_BITS }
    }

    /// Whether no flag is set.
    pub fn is_empty(&self) -> (r: bool)
        ensures
            r == (self@ == 0),
    {
        self.bits == 0
    }

    /// The flags as bits.
    pub fn bits(&self) -> (r: u8)
        ensures
            r == self@,
    {
        self.bits
    }

    /// Whether every flag of `other` is set in `self`.
    pub fn contains(&self, other: Usages) -> (r: bool)
        ensures
            r == has_flags(self@, other@),
    {
        self.bits & other.bits == other.bits
    }

    /// Sets the flags of `other` in `self`.
    pub fn insert(&mut self, other: Usages)
        ensures
            final(self)@ == old(self)@ | other@,
    {
        self.bits = self.bits | other.bits;
    }

    /// Clears the flags of `other` in `self`.
    pub fn remove(&mut self, other: Usages)
        ensures
            final(self)@ == old(self)@ & !other@,
    {
        self.bits = self.bits & !other.bits;
    }

    /// The flags of `self` together with those of `other`.
    pub fn union(self, other: Usages) -> (r: Usages)
        ensures
            r@ == self@ | other@,
    {
        Usages { bits: self.bits | other.bits }
    }

    /// The four-column text of the flags (see [`display_text`]).
    pub fn display(&self) -> (r: String)
        ensures
            r@ == display_text(self@),
    {
        let mut s = String::new();
        if self.bits & ITEM_BITS == ITEM_BITS {
            s.append("I");
        } else {
            s.append(" ");
        }
        if self.bits & PLUGIN_BITS == PLUGIN_BITS {
            s.append("P");
        } else {
            s.append(" ");
        }
        if self.bits & RECORD_PATH_BITS == RECORD_PATH_BITS {
            s.append("R");
        } else {
            s.append(" ");
        }
        if self.bits & METRONOME_BITS == METRONOME_BITS {
            s.append("M");
        } else {
            s.append(" ");
        }
        proof {
            reveal_strlit("I");
            reveal_strlit("P");
            reveal_strlit("R");
            reveal_strlit("M");
            reveal_strlit(" ");
        }
        assert(s@ =~= display_text(self@));
        s
    }
}

impl Default for Usages {
    /// No flag.
    fn default() -> (r: Usages)
        ensures
            r@ == 0,
    {
        Usages { bits: 0 }
    }
}

impl core::ops::BitOr for Usages {
    type Output = Usages;

    /// The flags of both operands.
    fn bitor(self, rhs: Usages) -> (r: Usages)
        ensures
            r@ == self@ | rhs@,
    {
        Usages { bits: self.bits | rhs.bits }
    }
}

impl vstd::std_specs::ops::BitOrSpecImpl for Usages {
    open spec fn obeys_bitor_spec() -> bool {
        true
    }

    open spec fn bitor_req(self, rhs: Usages) -> bool {
        true
    }

    closed spec fn bitor_spec(self, rhs: Usages) -> Usages {
        Usages { bits: self.bits | rhs.bits }
    }
}

/// After the flags of `b` are added to `a`, every flag of `a` and every flag
/// of `b` is set.
pub proof fn lemma_union_contains(a: u8, b: u8)
    ensures
        has_flags(a | b, a),
        has_flags(a | b, b),
{
    assert((a | b) & a == a && (a | b) & b == b) by (bit_vector);
}

/// Every flag is set in itself.
pub proof fn lemma_contains_refl(a: u8)
    ensures
        has_flags(a, a),
{
    assert(a & a == a) by (bit_vector);
}

/// Flags set in flags that are set in `a` are set in `a`.
pub proof fn lemma_contains_trans(a: u8, b: u8, c: u8)
    requires
        has_flags(a, b),
        has_flags(b, c),
    ensures
        has_flags(a, c),
{
    assert(a & b == b && b & c == c ==> a & c == c) by (bit_vector);
}

/// Adding flags keeps every flag that was set.
pub proof fn lemma_union_keeps(a: u8, b: u8, c: u8)
    requires
        has_flags(a, c),
    ensures
        has_flags(a | b, c),
{
    assert(a & c == c ==> (a | b) & c == c) by (bit_vector);
}

/// Adding the same flags twice is adding them once.
pub proof fn lemma_union_idempotent(a: u8, b: u8)
    ensures
        (a | b) | b == a | b,
{
    assert((a | b) | b == a | b) by (bit_vector);
}

/// The order in which flags are added does not matter.
pub proof fn lemma_union_commutes(a: u8, b: u8, c: u8)
    ensures
        (a | b) | c == (a | c) | b,
{
    assert((a | b) | c == (a | c) | b) by (bit_vector);
}

/// Adding flags none of which is the metronome flag to flags without it
/// gives flags without it.
pub proof fn lemma_union_without_metronome(a: u8, b: u8)
    requires
        !has_flags(a, METRONOME_BITS),
        !has_flags(b, METRONOME_BITS),
    ensures
        !has_flags(a | b, METRONOME_BITS),
{
    assert(a & 0x80 != 0x80 && b & 0x80 != 0x80 ==> (a | b) & 0x80 != 0x80) by (bit_vector);
}

/// The item, plugin and record-path flags, and no flag, are not the
/// metronome flag.
pub proof fn lemma_scan_flags_not_metronome()
    ensures
        !has_flags(ITEM_BITS, METRONOME_BITS),
        !has_flags(PLUGIN_BITS, METRONOME_BITS),
        !has_flags(RECORD_PATH_BITS, METRONOME_BITS),
        !has_flags(0, METRONOME_BITS),
{
    assert(1u8 & 0x80u8 != 0x80u8) by (bit_vector);
    assert(4u8 & 0x80u8 != 0x80u8) by (bit_vector);
    assert(0x40u8 & 0x80u8 != 0x80u8) by (bit_vector);
    assert(0u8 & 0x80u8 != 0x80u8) by (bit_vector);
}

/// For each path, as paths compare, the text under which it was first
/// recorded and the flags of its uses.
pub type UsageMap = Map<PathKey, (Seq<char>, u8)>;

/// `m` with a use of the path `k` with the flags `flag`: a path that `m`
/// holds, as paths compare, keeps its text and gains the flags; a new path is
/// recorded under the text `k`.
pub open spec fn add_usage(m: UsageMap, k: Seq<char>, flag: u8) -> UsageMap {
    let key = path_key(k);
    if m.contains_key(key) {
        m.insert(key, (m[key].0, m[key].1 | flag))
    } else {
        m.insert(key, (k, flag))
    }
}

/// Recording a use of `k` leaves the path of `k` with every flag it had and
/// every flag of `flag`, under the text it had, and leaves every other path as
/// it was.
pub proof fn lemma_add_usage(m: UsageMap, k: Seq<char>, flag: u8, other: PathKey)
    ensures
        add_usage(m, k, flag).contains_key(path_key(k)),
        has_flags(add_usage(m, k, flag)[path_key(k)].1, flag),
        m.contains_key(path_key(k)) ==> has_flags(add_usage(m, k, flag)[path_key(k)].1, m[path_key(k)].1)
            && add_usage(m, k, flag)[path_key(k)].0 == m[path_key(k)].0,
        !m.contains_key(path_key(k)) ==> add_usage(m, k, flag)[path_key(k)] == (k, flag),
        other != path_key(k) ==> (add_usage(m, k, flag).contains_key(other) == m.contains_key(
            other,
        )),
        other != path_key(k) && m.contains_key(other) ==> add_usage(m, k, flag)[other] == m[other],
{
    let key = path_key(k);
    if m.contains_key(key) {
        lemma_union_contains(m[key].1, flag);
    } else {
        lemma_contains_refl(flag);
    }
}

/// The entries `e` are in strictly increasing path order, `keys` holds their
/// components, and `e` lists exactly the map `m`.
spec fn entries_model(e: Seq<(String, Usages)>, keys: Seq<Vec<Vec<char>>>, m: UsageMap) -> bool {
    &&& keys.len() == e.len()
    &&& forall|i: int| 0 <= i < e.len() ==> key_view(#[trigger] keys[i]@) == path_key(e[i].0@)
    &&& forall|i: int, j: int|
        0 <= i < j < e.len() ==> key_order(path_key(#[trigger] e[i].0@), path_key(#[trigger] e[j].0@))
            == -1
    &&& forall|i: int|
        0 <= i < e.len() ==> #[trigger] m.contains_key(path_key(e[i].0@)) && m[path_key(e[i].0@)] == (
            e[i].0@,
            e[i].1@,
        )
    &&& forall|k: PathKey|
        #[trigger] m.contains_key(k) ==> exists|i: int|
            0 <= i < e.len() && #[trigger] path_key(e[i].0@) == k
}

/// For each path that a project refers to, how the project uses it. Paths
/// are compared as std's `Path` compares them (see [`path_key`]) and kept in
/// its order; each keeps the text under which it was first recorded.
pub struct PathUsages {
    entries: Vec<(String, Usages)>,
    keys: Vec<Vec<Vec<char>>>,
    model: Ghost<UsageMap>,
}

impl View for PathUsages {
    type V = UsageMap;

    closed spec fn view(&self) -> UsageMap {
        self.model@
    }
}

impl PathUsages {
    /// The entries are in strictly increasing path order and are exactly the
    /// map that the value stands for.
    #[verifier::type_invariant]
    closed spec fn wf(self) -> bool {
        entries_model(self.entries@, self.keys@, self.model@)
    }

    /// No path.
    pub fn new() -> (r: PathUsages)
        ensures
            r@ == Map::<PathKey, (Seq<char>, u8)>::empty(),
    {
        PathUsages { entries: Vec::new(), keys: Vec::new(), model: Ghost(Map::empty()) }
    }

    /// The number of paths.
    pub fn len(&self) -> (r: usize)
        ensures
            r == self@.len(),
    {
        proof {
            use_type_invariant(self);
            self.lemma_len();
        }
        self.entries.len()
    }

    proof fn lemma_len(&self)
        requires
            self.wf(),
        ensures
            self@.dom().finite(),
            self@.len() == self.entries@.len(),
    {
        let keys = self.entries@.map_values(|e: (String, Usages)| path_key(e.0@));
        assert(self@.dom() =~= keys.to_set()) by {
            assert forall|k: PathKey| self@.dom().contains(k) implies keys.to_set().contains(k) by {
                let i = choose|i: int|
                    0 <= i < self.entries@.len() && #[trigger] path_key(self.entries@[i].0@) == k;
                assert(keys[i] == k);
            }
            assert forall|k: PathKey| keys.to_set().contains(k) implies self@.dom().contains(k) by {
                let i = choose|i: int| 0 <= i < keys.len() && keys[i] == k;
                assert(self@.contains_key(path_key(self.entries@[i].0@)));
            }
        }
        assert(keys.no_duplicates()) by {
            assert forall|i: int, j: int|
                0 <= i < keys.len() && 0 <= j < keys.len() && i != j implies keys[i] != keys[j] by {
                let a = path_key(self.entries@[i].0@);
                let b = path_key(self.entries@[j].0@);
                lemma_key_order(a, b, a);
                if i < j {
                    assert(key_order(a, b) == -1);
                } else {
                    assert(key_order(b, a) == -1);
                }
            }
        }
        keys.unique_seq_to_set();
    }

    /// The flags recorded for the path `path`, as paths compare, if it is
    /// present.
    pub fn get(&self, path: &str) -> (r: Option<Usages>)
        ensures
            r is Some <==> self@.contains_key(path_key(path@)),
            r matches Some(u) ==> u@ == self@[path_key(path@)].1,
    {
        proof {
            use_type_invariant(self);
        }
        let key = path_key_of(path);
        let mut i: usize = 0;
        while i < self.entries.len()
            invariant
                self.wf(),
                key_view(key@) == path_key(path@),
                i <= self.entries@.len(),
                forall|j: int| 0 <= j < i ==> path_key(#[trigger] self.entries@[j].0@) != path_key(path@),
            decreases self.entries@.len() - i,
        {
            let c = key_compare(&self.keys[i], &key);
            proof {
                lemma_key_order(key_view(self.keys@[i as int]@), key_view(key@), key_view(key@));
            }
            if c == 0 {
                assert(self@.contains_key(path_key(self.entries@[i as int].0@)));
                return Some(self.entries[i].1);
            }
            i = i + 1;
        }
        proof {
            if self@.contains_key(path_key(path@)) {
                let j = choose|j: int|
                    0 <= j < self.entries@.len() && #[trigger] path_key(self.entries@[j].0@) == path_key(path@);
                assert(path_key(self.entries@[j].0@) != path_key(path@));
            }
        }
        None
    }

    /// Records a use of `path` with the flags of `flag`: a path already
    /// recorded, as paths compare, keeps its text and gains the flags; a new
    /// path takes its place in path order.
    pub fn add(&mut self, path: &str, flag: Usages)
        ensures
            final(self)@ == add_usage(old(self)@, path@, flag@),
    {
        proof {
            use_type_invariant(&*self);
        }
        let ghost m0 = self.model@;
        let ghost e0 = self.entries@;
        let ghost k0 = self.keys@;
        let ghost new_key = path_key(path@);
        let ghost new_model = add_usage(m0, path@, flag@);
        let key = path_key_of(path);
        let n = self.entries.len();
        let mut i: usize = 0;
        let mut stop = false;
        while i < n && !stop
            invariant
                self.wf(),
                entries_model(e0, k0, m0),
                self.entries@ == e0,
                self.keys@ == k0,
                self.model@ == m0,
                n == e0.len(),
                key_view(key@) == new_key,
                new_key == path_key(path@),
                i <= n,
                forall|j: int| 0 <= j < i ==> key_order(path_key(#[trigger] e0[j].0@), new_key) == -1,
                stop ==> i < n && key_order(path_key(e0[i as int].0@), new_key) != -1,
            decreases n - i + (if stop { 0int } else { 1int }),
        {
            let c = key_compare(&self.keys[i], &key);
            proof {
                lemma_key_order(path_key(e0[i as int].0@), new_key, new_key);
            }
            if c < 0 {
                i = i + 1;
            } else {
                stop = true;
            }
        }
        let mut taken = PathUsages::new();
        std::mem::swap(self, &mut taken);
        let PathUsages { mut entries, mut keys, model: _ } = taken;
        if stop && key_compare(&keys[i], &key) == 0 {
            proof {
                lemma_key_order(path_key(e0[i as int].0@), new_key, new_key);
                assert(path_key(e0[i as int].0@) == new_key);
                assert(m0.contains_key(new_key));
            }
            let text = entries[i].0.clone();
            let u = entries[i].1.union(flag);
            entries.set(i, (text, u));
            proof {
                assert(entries@ == e0.update(i as int, (text, u)));
                assert forall|a: int, b: int| 0 <= a < b < entries@.len() implies key_order(
                    path_key(#[trigger] entries@[a].0@),
                    path_key(#[trigger] entries@[b].0@),
                ) == -1 by {
                    assert(key_order(path_key(e0[a].0@), path_key(e0[b].0@)) == -1);
                }
                assert forall|a: int| 0 <= a < entries@.len() implies #[trigger] new_model.contains_key(
                    path_key(entries@[a].0@),
                ) && new_model[path_key(entries@[a].0@)] == (entries@[a].0@, entries@[a].1@) by {
                    assert(m0.contains_key(path_key(e0[a].0@)));
                    if a != i {
                        let x = path_key(e0[a].0@);
                        lemma_key_order(x, new_key, x);
                        if a < i {
                            assert(key_order(x, new_key) == -1);
                        } else {
                            assert(key_order(new_key, x) == -1);
                        }
                    }
                }
                assert forall|k: PathKey| #[trigger] new_model.contains_key(k) implies exists|j: int|
                    0 <= j < entries@.len() && #[trigger] path_key(entries@[j].0@) == k by {
                    assert(m0.contains_key(k));
                    let j = choose|j: int| 0 <= j < e0.len() && #[trigger] path_key(e0[j].0@) == k;
                    assert(path_key(entries@[j].0@) == k);
                }
            }
            *self = PathUsages { entries, keys, model: Ghost(new_model) };
        } else {
            proof {
                if stop {
                    lemma_key_order(path_key(e0[i as int].0@), new_key, new_key);
                }
                assert(!m0.contains_key(new_key)) by {
                    if m0.contains_key(new_key) {
                        let j = choose|j: int| 0 <= j < e0.len() && #[trigger] path_key(e0[j].0@) == new_key;
                        if j < i {
                            lemma_key_order(new_key, new_key, new_key);
                        } else {
                            let x = path_key(e0[i as int].0@);
                            lemma_key_order(x, new_key, new_key);
                            if j > i {
                                assert(key_order(x, path_key(e0[j].0@)) == -1);
                            }
                        }
                    }
                }
            }
            let text = path.to_owned();
            let u = Usages::empty().union(flag);
            entries.insert(i, (text, u));
            keys.insert(i, key);
            proof {
                assert(u@ == flag@) by {
                    let f = flag@;
                    assert(0u8 | f == f) by (bit_vector);
                }
                assert(entries@ == e0.insert(i as int, (text, u)));
                assert(keys@ == k0.insert(i as int, key));
                assert forall|a: int| 0 <= a < entries@.len() implies key_view(#[trigger] keys@[a]@)
                    == path_key(entries@[a].0@) by {
                    if a > i {
                        assert(keys@[a] == k0[a - 1]);
                    }
                }
                assert forall|a: int, b: int| 0 <= a < b < entries@.len() implies key_order(
                    path_key(#[trigger] entries@[a].0@),
                    path_key(#[trigger] entries@[b].0@),
                ) == -1 by {
                    let pa = path_key(entries@[a].0@);
                    let pb = path_key(entries@[b].0@);
                    if b < i {
                        assert(key_order(path_key(e0[a].0@), path_key(e0[b].0@)) == -1);
                    } else if b == i {
                        assert(key_order(path_key(e0[a].0@), new_key) == -1);
                    } else if a > i {
                        assert(key_order(path_key(e0[a - 1].0@), path_key(e0[b - 1].0@)) == -1);
                    } else {
                        // new_key lies before every entry from i on
                        let x = path_key(e0[i as int].0@);
                        lemma_key_order(x, new_key, x);
                        lemma_key_order(new_key, x, pb);
                        if b - 1 > i {
                            assert(key_order(x, path_key(e0[b - 1].0@)) == -1);
                        }
                        if a < i {
                            assert(key_order(path_key(e0[a].0@), new_key) == -1);
                            lemma_key_order(pa, new_key, pb);
                        }
                    }
                }
                assert forall|a: int| 0 <= a < entries@.len() implies #[trigger] new_model.contains_key(
                    path_key(entries@[a].0@),
                ) && new_model[path_key(entries@[a].0@)] == (entries@[a].0@, entries@[a].1@) by {
                    if a != i {
                        let j = if a < i { a } else { a - 1 };
                        assert(entries@[a] == e0[j]);
                        assert(m0.contains_key(path_key(e0[j].0@)));
                    }
                }
                assert forall|k: PathKey| #[trigger] new_model.contains_key(k) implies exists|j: int|
                    0 <= j < entries@.len() && #[trigger] path_key(entries@[j].0@) == k by {
                    if k == new_key {
                        assert(path_key(entries@[i as int].0@) == k);
                    } else {
                        let j = choose|j: int| 0 <= j < e0.len() && #[trigger] path_key(e0[j].0@) == k;
                        let j2 = if j < i { j } else { j + 1 };
                        assert(entries@[j2] == e0[j]);
                    }
                }
            }
            *self = PathUsages { entries, keys, model: Ghost(new_model) };
        }
    }

    /// The paths and their flags, in path order.
    pub fn entries(&self) -> (r: &[(String, Usages)])
        ensures
            r@.len() == self@.len(),
            forall|i: int|
                0 <= i < r@.len() ==> #[trigger] self@.contains_key(path_key(r@[i].0@))
                    && self@[path_key(r@[i].0@)] == (r@[i].0@, r@[i].1@),
            forall|i: int, j: int|
                0 <= i < j < r@.len() ==> key_order(path_key(#[trigger] r@[i].0@), path_key(#[trigger] r@[j].0@))
                    == -1,
    {
        proof {
            use_type_invariant(self);
            self.lemma_len();
        }
        let r = self.entries.as_slice();
        assert forall|i: int| 0 <= i < r@.len() implies #[trigger] self@.contains_key(
            path_key(r@[i].0@),
        ) && self@[path_key(r@[i].0@)] == (r@[i].0@, r@[i].1@) by {
            assert(r@[i] == self.entries@[i]);
            assert(self.model@.contains_key(path_key(self.entries@[i].0@)));
        }
        r
    }
}

} // verus!
