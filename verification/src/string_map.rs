//! A map with string keys, kept in the order of its keys.
use vstd::prelude::*;

use crate::text;

verus! {

/// Lexicographic order on strings, character by character.
pub open spec fn precedes(a: Seq<char>, b: Seq<char>) -> bool
    decreases a.len(),
{
    if b.len() == 0 {
        false
    } else if a.len() == 0 {
        true
    } else if a[0] == b[0] {
        precedes(a.skip(1), b.skip(1))
    } else {
        a[0] < b[0]
    }
}

proof fn lemma_precedes_irreflexive(a: Seq<char>)
    ensures
        !precedes(a, a),
    decreases a.len(),
{
    if a.len() > 0 {
        lemma_precedes_irreflexive(a.skip(1));
    }
}

proof fn lemma_precedes_transitive(a: Seq<char>, b: Seq<char>, c: Seq<char>)
    requires
        precedes(a, b),
        precedes(b, c),
    ensures
        precedes(a, c),
    decreases a.len(),
{
    if a.len() > 0 && b.len() > 0 && c.len() > 0 && a[0] == b[0] && b[0] == c[0] {
        lemma_precedes_transitive(a.skip(1), b.skip(1), c.skip(1));
    }
}

proof fn lemma_precedes_total(a: Seq<char>, b: Seq<char>)
    ensures
        precedes(a, b) || precedes(b, a) || a == b,
    decreases a.len(),
{
    if a.len() == 0 || b.len() == 0 {
        if a.len() == 0 && b.len() == 0 {
            assert(a =~= b);
        }
    } else if a[0] == b[0] {
        lemma_precedes_total(a.skip(1), b.skip(1));
        if a.skip(1) == b.skip(1) {
            assert(a =~= seq![a[0]] + a.skip(1));
            assert(b =~= seq![b[0]] + b.skip(1));
        }
    }
}

/// Compares two strings by [`precedes`].
pub fn is_before(a: &str, b: &str) -> (res: bool)
    ensures
        res == precedes(a@, b@),
{
    let left = text::chars_of(a);
    let right = text::chars_of(b);
    let mut i: usize = 0;
    proof {
        assert(a@.skip(0) =~= a@);
        assert(b@.skip(0) =~= b@);
    }
    while i < left.len() && i < right.len()
        invariant
            left@ == a@,
            right@ == b@,
            i <= left.len(),
            i <= right.len(),
            precedes(a@, b@) == precedes(a@.skip(i as int), b@.skip(i as int)),
        decreases left.len() - i,
    {
        proof {
            assert(a@.skip(i as int).skip(1) =~= a@.skip(i + 1));
            assert(b@.skip(i as int).skip(1) =~= b@.skip(i + 1));
        }
        if left[i] != right[i] {
            return left[i] < right[i];
        }
        i = i + 1;
    }
    i < right.len()
}

/// The map that a sequence of pairs writes down; a later pair wins over an earlier one.
pub open spec fn pairs_map<V>(pairs: Seq<(String, V)>) -> Map<Seq<char>, V>
    decreases pairs.len(),
{
    if pairs.len() == 0 {
        Map::empty()
    } else {
        pairs_map(pairs.drop_last()).insert(pairs.last().0@, pairs.last().1)
    }
}

/// The keys of the pairs rise from each to the next.
pub open spec fn rising<V>(pairs: Seq<(String, V)>) -> bool {
    forall|i: int, j: int|
        0 <= i < j < pairs.len() ==> precedes((#[trigger] pairs[i]).0@, (#[trigger] pairs[j]).0@)
}

/// Keys that rise are all different.
pub proof fn lemma_rising_distinct<V>(pairs: Seq<(String, V)>, i: int, j: int)
    requires
        rising(pairs),
        0 <= i < pairs.len(),
        0 <= j < pairs.len(),
        i != j,
    ensures
        pairs[i].0@ != pairs[j].0@,
{
    lemma_precedes_irreflexive(pairs[i].0@);
    if i < j {
        assert(precedes(pairs[i].0@, pairs[j].0@));
    } else {
        assert(precedes(pairs[j].0@, pairs[i].0@));
    }
}

/// What [`pairs_map`] holds where the keys rise: each pair, and nothing else.
proof fn lemma_pairs_map<V>(pairs: Seq<(String, V)>)
    requires
        rising(pairs),
    ensures
        forall|i: int|
            0 <= i < pairs.len() ==> pairs_map(pairs).contains_key((#[trigger] pairs[i]).0@)
                && pairs_map(pairs)[pairs[i].0@] == pairs[i].1,
        forall|k: Seq<char>| #[trigger]
            pairs_map(pairs).contains_key(k) ==> exists|i: int|
                0 <= i < pairs.len() && (#[trigger] pairs[i]).0@ == k,
    decreases pairs.len(),
{
    if pairs.len() > 0 {
        let rest = pairs.drop_last();
        assert(rising(rest)) by {
            assert forall|i: int, j: int| 0 <= i < j < rest.len() implies precedes(
                (#[trigger] rest[i]).0@,
                (#[trigger] rest[j]).0@,
            ) by {
                assert(precedes(pairs[i].0@, pairs[j].0@));
            }
        }
        lemma_pairs_map(rest);
        assert forall|i: int| 0 <= i < pairs.len() implies pairs_map(pairs).contains_key(
            (#[trigger] pairs[i]).0@,
        ) && pairs_map(pairs)[pairs[i].0@] == pairs[i].1 by {
            if i < pairs.len() - 1 {
                assert(rest[i] == pairs[i]);
                lemma_rising_distinct(pairs, i, pairs.len() - 1);
            }
        }
        assert forall|k: Seq<char>| #[trigger] pairs_map(pairs).contains_key(k) implies exists|i: int|
            0 <= i < pairs.len() && (#[trigger] pairs[i]).0@ == k by {
            if k == pairs.last().0@ {
                assert(pairs[pairs.len() - 1].0@ == k);
            } else {
                assert(pairs_map(rest).contains_key(k));
                let i = choose|i: int| 0 <= i < rest.len() && (#[trigger] rest[i]).0@ == k;
                assert(pairs[i].0@ == k);
            }
        }
    }
}

proof fn lemma_pairs_map_len<V>(pairs: Seq<(String, V)>)
    requires
        rising(pairs),
    ensures
        pairs_map(pairs).dom().finite(),
        pairs_map(pairs).len() == pairs.len(),
    decreases pairs.len(),
{
    if pairs.len() > 0 {
        let rest = pairs.drop_last();
        assert(rising(rest)) by {
            assert forall|i: int, j: int| 0 <= i < j < rest.len() implies precedes(
                (#[trigger] rest[i]).0@,
                (#[trigger] rest[j]).0@,
            ) by {
                assert(precedes(pairs[i].0@, pairs[j].0@));
            }
        }
        lemma_pairs_map_len(rest);
        lemma_pairs_map(rest);
        if pairs_map(rest).contains_key(pairs.last().0@) {
            let i = choose|i: int| 0 <= i < rest.len() && (#[trigger] rest[i]).0@ == pairs.last().0@;
            lemma_rising_distinct(pairs, i, pairs.len() - 1);
        }
    }
}

/// A map from strings to values. The entries stand in the order of their keys, each key once.
#[derive(Debug, PartialEq, Eq)]
pub struct StringMap<V> {
    entries: Vec<(String, V)>,
}

impl<V> View for StringMap<V> {
    type V = Map<Seq<char>, V>;

    closed spec fn view(&self) -> Map<Seq<char>, V> {
        pairs_map(self.entries@)
    }
}

impl<V> StringMap<V> {
    #[verifier::type_invariant]
    spec fn ordered(self) -> bool {
        rising(self.entries@)
    }

    /// The entries in the order of their keys.
    pub closed spec fn pairs(&self) -> Seq<(String, V)> {
        self.entries@
    }

    /// A map without entries.
    pub fn new() -> (res: StringMap<V>)
        ensures
            res@ == Map::<Seq<char>, V>::empty(),
    {
        StringMap { entries: Vec::new() }
    }

    /// The number of entries. The entries at their positions are those of the map, their keys
    /// rise, and there is no other.
    pub fn len(&self) -> (res: usize)
        ensures
            res == self.pairs().len(),
            res == self@.len(),
            self@.dom().finite(),
            rising(self.pairs()),
            forall|i: int|
                0 <= i < self.pairs().len() ==> self@.contains_key((#[trigger] self.pairs()[i]).0@)
                    && self@[self.pairs()[i].0@] == self.pairs()[i].1,
            forall|k: Seq<char>| #[trigger]
                self@.contains_key(k) ==> exists|i: int|
                    0 <= i < self.pairs().len() && (#[trigger] self.pairs()[i]).0@ == k,
    {
        proof {
            use_type_invariant(&*self);
            lemma_pairs_map(self.entries@);
            lemma_pairs_map_len(self.entries@);
        }
        self.entries.len()
    }

    /// Whether the map has no entry.
    pub fn is_empty(&self) -> (res: bool)
        ensures
            res == (self@ == Map::<Seq<char>, V>::empty()),
    {
        proof {
            use_type_invariant(&*self);
            lemma_pairs_map(self.entries@);
            if self.entries@.len() > 0 {
                assert(self@.contains_key(self.entries@[0].0@));
            }
        }
        self.entries.len() == 0
    }

    /// The key of the entry at position `i` in the order of the keys.
    pub fn key_at(&self, i: usize) -> (res: &String)
        requires
            i < self.pairs().len(),
        ensures
            res@ == self.pairs()[i as int].0@,
    {
        &self.entries[i].0
    }

    /// The value of the entry at position `i` in the order of the keys.
    pub fn value_at(&self, i: usize) -> (res: &V)
        requires
            i < self.pairs().len(),
        ensures
            *res == self.pairs()[i as int].1,
    {
        &self.entries[i].1
    }

    /// Looks `key` up.
    pub fn get(&self, key: &str) -> (res: Option<&V>)
        ensures
            match res {
                Some(v) => self@.contains_key(key@) && self@[key@] == *v,
                None => !self@.contains_key(key@),
            },
    {
        proof {
            use_type_invariant(&*self);
            lemma_pairs_map(self.entries@);
        }
        for i in 0..self.entries.len()
            invariant
                forall|k: int| 0 <= k < i ==> (#[trigger] self.entries@[k]).0@ != key@,
                forall|i: int|
                    0 <= i < self.entries@.len() ==> self@.contains_key(
                        (#[trigger] self.entries@[i]).0@,
                    ) && self@[self.entries@[i].0@] == self.entries@[i].1,
        {
            if text::same(self.entries[i].0.as_str(), key) {
                return Some(&self.entries[i].1);
            }
        }
        None
    }

    /// Sets the value of `key`, in place of the one that it may have had.
    pub fn insert(&mut self, key: String, value: V)
        ensures
            final(self)@ == old(self)@.insert(key@, value),
    {
        proof {
            use_type_invariant(&*self);
        }
        let mut entries: Vec<(String, V)> = Vec::new();
        std::mem::swap(&mut entries, &mut self.entries);
        let ghost before = entries@;
        let mut at: usize = 0;
        while at < entries.len() && is_before(entries[at].0.as_str(), key.as_str())
            invariant
                entries@ == before,
                at <= before.len(),
                forall|k: int| 0 <= k < at ==> precedes((#[trigger] before[k]).0@, key@),
            decreases before.len() - at,
        {
            at = at + 1;
        }
        let ghost name = key@;
        proof {
            lemma_pairs_map(before);
            if at < before.len() {
                lemma_precedes_total(before[at as int].0@, name);
            }
        }
        if at < entries.len() && text::same(entries[at].0.as_str(), key.as_str()) {
            entries.set(at, (key, value));
            proof {
                assert forall|i: int, j: int| 0 <= i < j < entries@.len() implies precedes(
                    (#[trigger] entries@[i]).0@,
                    (#[trigger] entries@[j]).0@,
                ) by {
                    assert(precedes(before[i].0@, before[j].0@));
                }
                lemma_pairs_map(entries@);
                let m = pairs_map(entries@);
                let target = pairs_map(before).insert(name, value);
                assert forall|k: Seq<char>| #[trigger]
                    m.dom().contains(k) == target.dom().contains(k) && (m.dom().contains(k)
                        ==> m[k] == target[k]) by {
                    assert(m.contains_key(k) == m.dom().contains(k));
                    if m.contains_key(k) {
                        let i = choose|i: int| 0 <= i < entries@.len() && (#[trigger] entries@[i]).0@ == k;
                        assert(before[i].0@ == k);
                        if i != at {
                            lemma_rising_distinct(before, i, at as int);
                        }
                    }
                    if target.contains_key(k) {
                        if k != name {
                            assert(pairs_map(before).contains_key(k));
                            let i = choose|i: int| 0 <= i < before.len() && (#[trigger] before[i]).0@ == k;
                            assert(entries@[i].0@ == k);
                        } else {
                            assert(entries@[at as int].0@ == k);
                        }
                    }
                }
                assert(m.dom() =~= target.dom());
                assert(m =~= target);
            }
        } else {
            entries.insert(at, (key, value));
            proof {
                let after = entries@;
                assert forall|i: int, j: int| 0 <= i < j < after.len() implies precedes(
                    (#[trigger] after[i]).0@,
                    (#[trigger] after[j]).0@,
                ) by {
                    if i < at && j > at {
                        assert(precedes(before[i].0@, before[j - 1].0@));
                    } else if i < at && j < at {
                        assert(precedes(before[i].0@, before[j].0@));
                    } else if i > at {
                        assert(precedes(before[i - 1].0@, before[j - 1].0@));
                    } else if i == at {
                        if j - 1 > at {
                            assert(precedes(before[at as int].0@, before[j - 1].0@));
                            lemma_precedes_transitive(name, before[at as int].0@, before[j - 1].0@);
                        }
                    }
                }
                lemma_pairs_map(after);
                let m = pairs_map(after);
                let target = pairs_map(before).insert(name, value);
                assert forall|k: Seq<char>| #[trigger]
                    m.dom().contains(k) == target.dom().contains(k) && (m.dom().contains(k)
                        ==> m[k] == target[k]) by {
                    assert(m.contains_key(k) == m.dom().contains(k));
                    if m.contains_key(k) {
                        let i = choose|i: int| 0 <= i < after.len() && (#[trigger] after[i]).0@ == k;
                        if i < at {
                            assert(before[i] == after[i]);
                            lemma_rising_distinct(after, i, at as int);
                        } else if i > at {
                            assert(before[i - 1] == after[i]);
                            lemma_rising_distinct(after, i, at as int);
                        }
                    }
                    if target.contains_key(k) {
                        if k != name {
                            assert(pairs_map(before).contains_key(k));
                            let i = choose|i: int| 0 <= i < before.len() && (#[trigger] before[i]).0@ == k;
                            if i < at {
                                assert(after[i].0@ == k);
                            } else {
                                assert(after[i + 1].0@ == k);
                            }
                        } else {
                            assert(after[at as int].0@ == k);
                        }
                    }
                }
                assert(m.dom() =~= target.dom());
                assert(m =~= target);
            }
        }
        self.entries = entries;
    }
}

impl<V: Clone> Clone for StringMap<V> {
    fn clone(&self) -> (res: StringMap<V>)
        ensures
            res@.dom() == self@.dom(),
            forall|k: Seq<char>| #[trigger]
                self@.contains_key(k) ==> cloned(self@[k], res@[k]),
    {
        proof {
            use_type_invariant(&*self);
        }
        let mut entries: Vec<(String, V)> = Vec::new();
        for i in 0..self.entries.len()
            invariant
                rising(self.entries@),
                entries.len() == i,
                forall|k: int|
                    0 <= k < i ==> (#[trigger] entries@[k]).0@ == self.entries@[k].0@ && cloned(
                        self.entries@[k].1,
                        entries@[k].1,
                    ),
        {
            entries.push((self.entries[i].0.clone(), self.entries[i].1.clone()));
        }
        proof {
            assert forall|i: int, j: int| 0 <= i < j < entries@.len() implies precedes(
                (#[trigger] entries@[i]).0@,
                (#[trigger] entries@[j]).0@,
            ) by {
                assert(precedes(self.entries@[i].0@, self.entries@[j].0@));
            }
            lemma_pairs_map(self.entries@);
            lemma_pairs_map(entries@);
            let m = pairs_map(entries@);
            assert forall|k: Seq<char>| #[trigger] m.dom().contains(k) == self@.dom().contains(k) && (
            self@.dom().contains(k) ==> cloned(self@[k], m[k])) by {
                assert(m.contains_key(k) == m.dom().contains(k));
                assert(self@.contains_key(k) == self@.dom().contains(k));
                if m.contains_key(k) {
                    let i = choose|i: int| 0 <= i < entries@.len() && (#[trigger] entries@[i]).0@ == k;
                    assert(self.entries@[i].0@ == k);
                }
                if self@.contains_key(k) {
                    let i = choose|i: int| 0 <= i < self.entries@.len() && (#[trigger] self.entries@[i]).0@ == k;
                    assert(entries@[i].0@ == k);
                }
            }
            assert(m.dom() =~= self@.dom());
            assert forall|k: Seq<char>| #[trigger] self@.contains_key(k) implies cloned(self@[k], m[k]) by {
                assert(m.dom().contains(k));
            }
        }
        StringMap { entries }
    }
}

/// A string comes before another exactly where the other goes on behind it, or where it has the lower
/// character at the first place in which they differ.
pub proof fn law_strings_are_ordered_by_their_characters(a: Seq<char>, b: Seq<char>)
    ensures
        precedes(a, b) <==> exists|i: int|
            0 <= i <= a.len() && i < b.len() && #[trigger] a.take(i) == b.take(i) && (i == a.len() || a[i]
                < b[i]),
    decreases a.len(),
{
    if a.len() > 0 && b.len() > 0 && a[0] == b[0] {
        let x = a.skip(1);
        let y = b.skip(1);
        law_strings_are_ordered_by_their_characters(x, y);
        if precedes(x, y) {
            let i = choose|i: int|
                0 <= i <= x.len() && i < y.len() && #[trigger] x.take(i) == y.take(i) && (i == x.len()
                    || x[i] < y[i]);
            assert(a.take(i + 1) =~= seq![a[0]] + x.take(i));
            assert(b.take(i + 1) =~= seq![b[0]] + y.take(i));
        }
        if exists|i: int|
            0 <= i <= a.len() && i < b.len() && #[trigger] a.take(i) == b.take(i) && (i == a.len() || a[i]
                < b[i]) {
            let i = choose|i: int|
                0 <= i <= a.len() && i < b.len() && #[trigger] a.take(i) == b.take(i) && (i == a.len()
                    || a[i] < b[i]);
            assert(i > 0);
            assert(x.take(i - 1) =~= a.take(i).skip(1));
            assert(y.take(i - 1) =~= b.take(i).skip(1));
        }
    } else if b.len() > 0 {
        assert(a.take(0) =~= b.take(0));
        if exists|i: int|
            0 <= i <= a.len() && i < b.len() && #[trigger] a.take(i) == b.take(i) && (i == a.len() || a[i]
                < b[i]) {
            let i = choose|i: int|
                0 <= i <= a.len() && i < b.len() && #[trigger] a.take(i) == b.take(i) && (i == a.len()
                    || a[i] < b[i]);
            if i > 0 {
                assert(a.take(i)[0] == b.take(i)[0]);
            }
        }
    }
}

} // verus!
