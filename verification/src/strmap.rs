//! A map keyed by strings, kept sorted by key.

use vstd::prelude::*;

use crate::text::{lemma_lex_irreflexive, lemma_lex_total, lemma_lex_transitive, lex_lt, str_eq, str_lt, texts, Text};

verus! {

/// The keys of `entries` stand in strictly ascending order.
pub open spec fn ascending<V>(entries: Seq<(String, V)>) -> bool {
    forall|i: int, j: int|
        0 <= i < j < entries.len() ==> lex_lt(#[trigger] entries[i].0@, #[trigger] entries[j].0@)
}

/// The texts stand in strictly ascending order.
pub open spec fn sorted_texts(s: Seq<Text>) -> bool {
    forall|i: int, j: int| 0 <= i < j < s.len() ==> lex_lt(#[trigger] s[i], #[trigger] s[j])
}

/// The members of a set of texts, in ascending order.
pub open spec fn sorted_keys(dom: Set<Text>) -> Seq<Text> {
    choose|s: Seq<Text>| #[trigger] sorted_texts(s) && s.to_set() == dom
}

proof fn lemma_sorted_front(s: Seq<Text>)
    requires
        sorted_texts(s),
        s.len() > 0,
    ensures
        sorted_texts(s.drop_last()),
        s.drop_last().to_set() == s.to_set().remove(s.last()),
{
    let f = s.drop_last();
    assert forall|i: int, j: int| 0 <= i < j < f.len() implies lex_lt(
        #[trigger] f[i],
        #[trigger] f[j],
    ) by {
        assert(f[i] == s[i] && f[j] == s[j]);
    }
    assert forall|x: Text| f.to_set().contains(x) <==> s.to_set().remove(s.last()).contains(x) by {
        if f.contains(x) {
            let i = choose|i: int| 0 <= i < f.len() && f[i] == x;
            assert(s[i] == x);
            assert(lex_lt(s[i], s[s.len() - 1]));
            lemma_lex_irreflexive(x);
        }
        if s.contains(x) && x != s.last() {
            let i = choose|i: int| 0 <= i < s.len() && s[i] == x;
            assert(f[i] == x);
        }
    }
    assert(f.to_set() =~= s.to_set().remove(s.last()));
}

/// The greatest of two equal sets of sorted texts is the same.
proof fn lemma_sorted_last(a: Seq<Text>, b: Seq<Text>)
    requires
        sorted_texts(a),
        sorted_texts(b),
        a.to_set() == b.to_set(),
        a.len() > 0,
        b.len() > 0,
        a.last() != b.last(),
    ensures
        lex_lt(a.last(), b.last()),
{
    assert(a.contains(a[a.len() - 1]));
    assert(b.to_set().contains(a.last()));
    let j = choose|j: int| 0 <= j < b.len() && b[j] == a.last();
    assert(lex_lt(b[j], b[b.len() - 1]));
}

/// A set of texts has one ascending order.
pub proof fn lemma_sorted_unique(a: Seq<Text>, b: Seq<Text>)
    requires
        sorted_texts(a),
        sorted_texts(b),
        a.to_set() == b.to_set(),
    ensures
        a == b,
    decreases a.len(),
{
    if a.len() == 0 {
        if b.len() > 0 {
            assert(b.contains(b[0]));
            assert(a.to_set().contains(b[0]));
        }
        assert(a =~= b);
    } else {
        if b.len() == 0 {
            assert(a.contains(a[0]));
            assert(b.to_set().contains(a[0]));
        }
        if a.last() != b.last() {
            lemma_sorted_last(a, b);
            lemma_sorted_last(b, a);
            lemma_lex_transitive(a.last(), b.last(), a.last());
            lemma_lex_irreflexive(a.last());
        }
        lemma_sorted_front(a);
        lemma_sorted_front(b);
        lemma_sorted_unique(a.drop_last(), b.drop_last());
        assert(a =~= a.drop_last().push(a.last()));
        assert(b =~= b.drop_last().push(b.last()));
    }
}

/// One more text in its place among ascending ones.
proof fn lemma_sorted_with(s: Seq<Text>, x: Text) -> (r: Seq<Text>)
    requires
        sorted_texts(s),
        !s.to_set().contains(x),
    ensures
        sorted_texts(r),
        r.to_set() == s.to_set().insert(x),
    decreases s.len(),
{
    if s.len() == 0 || lex_lt(s.last(), x) {
        let r = s.push(x);
        assert forall|i: int, j: int| 0 <= i < j < r.len() implies lex_lt(
            #[trigger] r[i],
            #[trigger] r[j],
        ) by {
            if j == s.len() && i < s.len() - 1 {
                assert(lex_lt(s[i], s[s.len() - 1]));
                lemma_lex_transitive(s[i], s.last(), x);
            }
        }
        lemma_set_push(s, x);
        r
    } else {
        let last = s.last();
        let front = s.drop_last();
        lemma_sorted_front(s);
        assert(s[s.len() - 1] == last);
        assert(s.contains(last));
        if !lex_lt(x, last) {
            lemma_lex_total(x, last);
        }
        let f = lemma_sorted_with(front, x);
        let r = f.push(last);
        assert forall|i: int, j: int| 0 <= i < j < r.len() implies lex_lt(
            #[trigger] r[i],
            #[trigger] r[j],
        ) by {
            if j == f.len() {
                assert(f.to_set().contains(f[i]));
                if f[i] != x {
                    assert(front.to_set().contains(f[i]));
                    let k = choose|k: int| 0 <= k < front.len() && front[k] == f[i];
                    assert(s[k] == f[i]);
                    assert(lex_lt(s[k], s[s.len() - 1]));
                }
            }
        }
        lemma_set_push(f, last);
        assert(r.to_set() =~= s.to_set().insert(x));
        r
    }
}

proof fn lemma_set_push(s: Seq<Text>, x: Text)
    ensures
        s.push(x).to_set() == s.to_set().insert(x),
{
    let t = s.push(x);
    assert forall|y: Text| t.to_set().contains(y) <==> s.to_set().insert(x).contains(y) by {
        if s.contains(y) {
            let i = choose|i: int| 0 <= i < s.len() && s[i] == y;
            assert(t[i] == y);
        }
        assert(t[s.len() as int] == x);
    }
    assert(t.to_set() =~= s.to_set().insert(x));
}

/// Every finite set of texts has an ascending order.
proof fn lemma_sorted_exists(dom: Set<Text>) -> (r: Seq<Text>)
    requires
        dom.finite(),
    ensures
        sorted_texts(r),
        r.to_set() == dom,
    decreases dom.len(),
{
    if dom.len() == 0 {
        let r = Seq::<Text>::empty();
        assert(dom =~= Set::<Text>::empty());
        assert(r.to_set() =~= dom);
        r
    } else {
        let x = dom.choose();
        let s = lemma_sorted_exists(dom.remove(x));
        let r = lemma_sorted_with(s, x);
        assert(r.to_set() =~= dom);
        r
    }
}

/// The members of a finite set of texts in ascending order are those members, each once, and
/// they do ascend. No other list has both.
pub proof fn law_sorted_keys(dom: Set<Text>, s: Seq<Text>)
    requires
        dom.finite(),
    ensures
        sorted_texts(sorted_keys(dom)),
        sorted_keys(dom).to_set() == dom,
        sorted_texts(s) && s.to_set() == dom ==> s == sorted_keys(dom),
{
    let r = lemma_sorted_exists(dom);
    assert(sorted_texts(r) && r.to_set() == dom);
    if sorted_texts(s) && s.to_set() == dom {
        lemma_sorted_unique(s, sorted_keys(dom));
    }
}

/// The map that a list of entries stands for: a later entry wins.
pub open spec fn map_of<V>(entries: Seq<(String, V)>) -> Map<Text, V>
    decreases entries.len(),
{
    if entries.len() == 0 {
        Map::empty()
    } else {
        map_of(entries.drop_last()).insert(entries.last().0@, entries.last().1)
    }
}

/// A map from strings to values. The entries are sorted by key, and no key occurs twice.
#[derive(Debug)]
pub struct StrMap<V> {
    entries: Vec<(String, V)>,
}

/// In ascending entries, an entry is found under its own key and nothing else is there.
pub proof fn lemma_map_of<V>(entries: Seq<(String, V)>)
    requires
        ascending(entries),
    ensures
        forall|i: int|
            0 <= i < entries.len() ==> map_of(entries).contains_key(#[trigger] entries[i].0@) && map_of(
                entries,
            )[entries[i].0@] == entries[i].1,
        forall|k: Text| #[trigger]
            map_of(entries).contains_key(k) ==> exists|i: int|
                0 <= i < entries.len() && #[trigger] entries[i].0@ == k,
        map_of(entries).dom().finite(),
        map_of(entries).len() == entries.len(),
    decreases entries.len(),
{
    if entries.len() > 0 {
        let front = entries.drop_last();
        lemma_map_of(front);
        let k = entries.last().0@;
        assert forall|i: int| 0 <= i < entries.len() implies map_of(entries).contains_key(
            #[trigger] entries[i].0@,
        ) && map_of(entries)[entries[i].0@] == entries[i].1 by {
            if i < front.len() {
                assert(front[i] == entries[i]);
                lemma_lex_irreflexive(k);
            }
        }
        assert forall|q: Text| #[trigger] map_of(entries).contains_key(q) implies exists|i: int|
            0 <= i < entries.len() && #[trigger] entries[i].0@ == q by {
            if q == k {
                assert(entries[entries.len() - 1].0@ == q);
            } else {
                let i = choose|i: int| 0 <= i < front.len() && #[trigger] front[i].0@ == q;
                assert(entries[i].0@ == q);
            }
        }
        assert(!map_of(front).contains_key(k)) by {
            if map_of(front).contains_key(k) {
                let i = choose|i: int| 0 <= i < front.len() && #[trigger] front[i].0@ == k;
                assert(lex_lt(entries[i].0@, entries[entries.len() - 1].0@));
                lemma_lex_irreflexive(k);
            }
        }
    }
}

/// Entries with the same keys make up maps with the same keys, and in both an entry is found
/// under its own key.
proof fn lemma_map_of_keys<V>(a: Seq<(String, V)>, b: Seq<(String, V)>)
    requires
        ascending(a),
        a.len() == b.len(),
        forall|i: int| 0 <= i < a.len() ==> (#[trigger] b[i]).0@ == a[i].0@,
    ensures
        ascending(b),
        map_of(a).dom() == map_of(b).dom(),
        forall|k: Text| #[trigger]
            map_of(b).contains_key(k) ==> exists|i: int|
                0 <= i < a.len() && (#[trigger] a[i]).1 == map_of(a)[k] && b[i].1 == map_of(b)[k],
{
    assert forall|i: int, j: int| 0 <= i < j < b.len() implies lex_lt(
        #[trigger] b[i].0@,
        #[trigger] b[j].0@,
    ) by {
        assert(lex_lt(a[i].0@, a[j].0@));
    }
    lemma_map_of(a);
    lemma_map_of(b);
    assert forall|k: Text| map_of(a).contains_key(k) <==> map_of(b).contains_key(k) by {
        if map_of(a).contains_key(k) {
            let i = choose|i: int| 0 <= i < a.len() && #[trigger] a[i].0@ == k;
            assert(b[i].0@ == k);
        }
        if map_of(b).contains_key(k) {
            let i = choose|i: int| 0 <= i < b.len() && #[trigger] b[i].0@ == k;
            assert(a[i].0@ == k);
        }
    }
    assert(map_of(a).dom() =~= map_of(b).dom());
    assert forall|k: Text| #[trigger] map_of(b).contains_key(k) implies exists|i: int|
        0 <= i < a.len() && (#[trigger] a[i]).1 == map_of(a)[k] && b[i].1 == map_of(b)[k] by {
        let i = choose|i: int| 0 <= i < b.len() && #[trigger] b[i].0@ == k;
        assert(a[i].0@ == b[i].0@);
        assert(a[i].1 == map_of(a)[k] && b[i].1 == map_of(b)[k]);
    }
}

impl<V: Clone> Clone for StrMap<V> {
    /// The same keys, each with a clone of its value.
    fn clone(&self) -> (r: Self)
        ensures
            r@.dom() == self@.dom(),
            forall|k: Text| #[trigger] r@.contains_key(k) ==> cloned::<V>(self@[k], r@[k]),
    {
        proof {
            use_type_invariant(self);
        }
        let mut entries: Vec<(String, V)> = Vec::new();
        for i in 0..self.entries.len()
            invariant
                entries@.len() == i,
                forall|j: int|
                    0 <= j < i ==> (#[trigger] entries@[j]).0@ == self.entries@[j].0@ && cloned::<V>(
                        self.entries@[j].1,
                        entries@[j].1,
                    ),
        {
            let key = self.entries[i].0.clone();
            let value = self.entries[i].1.clone();
            entries.push((key, value));
        }
        proof {
            lemma_map_of_keys(self.entries@, entries@);
            assert forall|k: Text| #[trigger] map_of(entries@).contains_key(k) implies cloned::<V>(
                self@[k],
                map_of(entries@)[k],
            ) by {
                let i = choose|i: int|
                    0 <= i < self.entries@.len() && (#[trigger] self.entries@[i]).1 == map_of(
                        self.entries@,
                    )[k] && entries@[i].1 == map_of(entries@)[k];
                assert(cloned::<V>(self.entries@[i].1, entries@[i].1));
            }
        }
        StrMap { entries }
    }
}

impl<V> View for StrMap<V> {
    type V = Map<Text, V>;

    closed spec fn view(&self) -> Map<Text, V> {
        map_of(self.entries@)
    }
}

impl<V> StrMap<V> {
    #[verifier::type_invariant]
    spec fn inv(self) -> bool {
        ascending(self.entries@)
    }

    /// The entries, in ascending order of their keys.
    pub closed spec fn pairs(self) -> Seq<(String, V)> {
        self.entries@
    }

    /// The empty map.
    pub fn new() -> (r: Self)
        ensures
            r@ == Map::<Text, V>::empty(),
    {
        StrMap { entries: Vec::new() }
    }

    /// The number of keys. The entries are in ascending order and make up the map.
    pub fn len(&self) -> (r: usize)
        ensures
            r == self@.len(),
            r == self.pairs().len(),
            self@.dom().finite(),
            ascending(self.pairs()),
            self@ == map_of(self.pairs()),
    {
        proof {
            use_type_invariant(self);
            lemma_map_of(self.entries@);
        }
        self.entries.len()
    }

    /// The position of `key`, or where it would stand.
    fn find(&self, key: &str) -> (r: (usize, bool))
        ensures
            r.0 <= self.entries@.len(),
            r.1 ==> r.0 < self.entries@.len() && self.entries@[r.0 as int].0@ == key@,
            r.1 == self@.contains_key(key@),
            forall|i: int| 0 <= i < r.0 ==> lex_lt(#[trigger] self.entries@[i].0@, key@),
            !r.1 ==> forall|i: int|
                r.0 <= i < self.entries@.len() ==> lex_lt(key@, #[trigger] self.entries@[i].0@),
    {
        proof {
            use_type_invariant(self);
            lemma_map_of(self.entries@);
        }
        let mut lo: usize = 0;
        let mut hi: usize = self.entries.len();
        while lo < hi
            invariant
                ascending(self.entries@),
                lo <= hi <= self.entries@.len(),
                forall|i: int| 0 <= i < lo ==> lex_lt(#[trigger] self.entries@[i].0@, key@),
                forall|i: int|
                    hi <= i < self.entries@.len() ==> !lex_lt(#[trigger] self.entries@[i].0@, key@),
            decreases hi - lo,
        {
            let mid: usize = lo + (hi - lo) / 2;
            if str_lt(self.entries[mid].0.as_str(), key) {
                proof {
                    assert forall|i: int| 0 <= i < mid + 1 implies lex_lt(
                        #[trigger] self.entries@[i].0@,
                        key@,
                    ) by {
                        if i < mid {
                            lemma_lex_transitive(
                                self.entries@[i].0@,
                                self.entries@[mid as int].0@,
                                key@,
                            );
                        }
                    }
                }
                lo = mid + 1;
            } else {
                proof {
                    assert forall|i: int| mid <= i < self.entries@.len() implies !lex_lt(
                        #[trigger] self.entries@[i].0@,
                        key@,
                    ) by {
                        if mid < i && lex_lt(self.entries@[i].0@, key@) {
                            lemma_lex_transitive(
                                self.entries@[mid as int].0@,
                                self.entries@[i].0@,
                                key@,
                            );
                        }
                    }
                }
                hi = mid;
            }
        }
        let found = lo < self.entries.len() && str_eq(self.entries[lo].0.as_str(), key);
        proof {
            if !found {
                assert forall|i: int| lo <= i < self.entries@.len() implies lex_lt(
                    key@,
                    #[trigger] self.entries@[i].0@,
                ) by {
                    if !lex_lt(key@, self.entries@[lo as int].0@) {
                        lemma_lex_total(key@, self.entries@[lo as int].0@);
                    }
                    if lo < i {
                        lemma_lex_transitive(
                            key@,
                            self.entries@[lo as int].0@,
                            self.entries@[i].0@,
                        );
                    }
                }
                if self@.contains_key(key@) {
                    let i = choose|i: int|
                        0 <= i < self.entries@.len() && #[trigger] self.entries@[i].0@ == key@;
                    lemma_lex_irreflexive(key@);
                    assert(false);
                }
            }
        }
        (lo, found)
    }

    /// Whether `key` is there.
    pub fn contains_key(&self, key: &str) -> (r: bool)
        ensures
            r == self@.contains_key(key@),
    {
        self.find(key).1
    }

    /// The value under `key`.
    pub fn get(&self, key: &str) -> (r: Option<&V>)
        ensures
            r is Some <==> self@.contains_key(key@),
            r matches Some(v) ==> *v == self@[key@],
    {
        let (i, found) = self.find(key);
        if found {
            proof {
                use_type_invariant(self);
                lemma_map_of(self.entries@);
            }
            Some(&self.entries[i].1)
        } else {
            None
        }
    }

    /// Puts `value` under `key`, in place of what was there.
    pub fn insert(&mut self, key: String, value: V)
        ensures
            final(self)@ == old(self)@.insert(key@, value),
    {
        let (i, found) = self.find(key.as_str());
        proof {
            use_type_invariant(&*self);
        }
        let ghost before = self.entries@;
        let mut entries: Vec<(String, V)> = Vec::new();
        std::mem::swap(&mut entries, &mut self.entries);
        let ghost kv = (key, value);
        if found {
            entries.set(i, (key, value));
            proof {
                assert(ascending(entries@));
                lemma_same_map_update(before, entries@, i as int);
            }
        } else {
            entries.insert(i, (key, value));
            proof {
                lemma_insert_ascending(before, kv, i as int);
                lemma_same_map_insert(before, kv, i as int);
            }
        }
        self.entries = entries;
    }

    /// Takes `key` out, and hands back what was there.
    pub fn remove(&mut self, key: &str) -> (r: Option<V>)
        ensures
            final(self)@ == old(self)@.remove(key@),
            r is Some <==> old(self)@.contains_key(key@),
            r matches Some(v) ==> v == old(self)@[key@],
    {
        let (i, found) = self.find(key);
        proof {
            use_type_invariant(&*self);
            lemma_map_of(self.entries@);
        }
        if !found {
            assert(self@.remove(key@) =~= self@);
            return None;
        }
        let ghost before = self.entries@;
        let mut entries: Vec<(String, V)> = Vec::new();
        std::mem::swap(&mut entries, &mut self.entries);
        let (_, value) = entries.remove(i);
        proof {
            lemma_remove_map(before, i as int);
        }
        self.entries = entries;
        Some(value)
    }

    /// The key at position `i` of the ascending order.
    pub fn key_at(&self, i: usize) -> (r: &String)
        requires
            i < self.pairs().len(),
        ensures
            *r == self.pairs()[i as int].0,
    {
        &self.entries[i].0
    }

    /// The value at position `i` of the ascending order.
    pub fn value_at(&self, i: usize) -> (r: &V)
        requires
            i < self.pairs().len(),
        ensures
            *r == self.pairs()[i as int].1,
    {
        &self.entries[i].1
    }

    /// The keys, in ascending order.
    pub fn keys(&self) -> (r: Vec<String>)
        ensures
            sorted_texts(texts(r@)),
            texts(r@).to_set() == self@.dom(),
            texts(r@) == sorted_keys(self@.dom()),
            r@.len() == self@.len(),
    {
        proof {
            use_type_invariant(self);
            lemma_map_of(self.entries@);
        }
        let mut out: Vec<String> = Vec::new();
        for i in 0..self.entries.len()
            invariant
                out@.len() == i,
                forall|j: int| 0 <= j < i ==> (#[trigger] out@[j])@ == self.entries@[j].0@,
        {
            out.push(self.entries[i].0.clone());
        }
        proof {
            let t = texts(out@);
            assert forall|i: int, j: int| 0 <= i < j < t.len() implies lex_lt(
                #[trigger] t[i],
                #[trigger] t[j],
            ) by {
                assert(t[i] == self.entries@[i].0@);
                assert(t[j] == self.entries@[j].0@);
            }
            assert forall|k: Text| t.to_set().contains(k) <==> self@.dom().contains(k) by {
                if t.contains(k) {
                    let i = choose|i: int| 0 <= i < t.len() && t[i] == k;
                    assert(self.entries@[i].0@ == k);
                }
                if self@.contains_key(k) {
                    let i = choose|i: int|
                        0 <= i < self.entries@.len() && #[trigger] self.entries@[i].0@ == k;
                    assert(t[i] == k);
                }
            }
            assert(t.to_set() =~= self@.dom());
            assert(sorted_texts(t) && t.to_set() == self@.dom());
            lemma_sorted_unique(t, sorted_keys(self@.dom()));
        }
        out
    }
}

/// Mapping the values of a map and putting one in go together.
pub proof fn lemma_mapped_insert<A, B>(m: Map<Text, A>, f: spec_fn(A) -> B, k: Text, v: A)
    ensures
        m.insert(k, v).map_values(f) == m.map_values(f).insert(k, f(v)),
{
    assert(m.insert(k, v).map_values(f) =~= m.map_values(f).insert(k, f(v)));
}

/// Mapping the values of a map and taking one out go together.
pub proof fn lemma_mapped_remove<A, B>(m: Map<Text, A>, f: spec_fn(A) -> B, k: Text)
    ensures
        m.remove(k).map_values(f) == m.map_values(f).remove(k),
{
    assert(m.remove(k).map_values(f) =~= m.map_values(f).remove(k));
}

proof fn lemma_same_map_update<V>(a: Seq<(String, V)>, b: Seq<(String, V)>, i: int)
    requires
        0 <= i < a.len(),
        ascending(a),
        b == a.update(i, b[i]),
        b[i].0@ == a[i].0@,
    ensures
        ascending(b),
        map_of(b) == map_of(a).insert(b[i].0@, b[i].1),
{
    assert forall|p: int, q: int| 0 <= p < q < b.len() implies lex_lt(
        #[trigger] b[p].0@,
        #[trigger] b[q].0@,
    ) by {
        assert(b[p].0@ == a[p].0@);
        assert(b[q].0@ == a[q].0@);
    }
    lemma_map_of(a);
    lemma_map_of(b);
    let m = map_of(a).insert(b[i].0@, b[i].1);
    assert forall|k: Text| map_of(b).contains_key(k) == m.contains_key(k) by {
        if map_of(b).contains_key(k) {
            let j = choose|j: int| 0 <= j < b.len() && #[trigger] b[j].0@ == k;
            assert(a[j].0@ == k);
        }
        if m.contains_key(k) && k != b[i].0@ {
            let j = choose|j: int| 0 <= j < a.len() && #[trigger] a[j].0@ == k;
            assert(b[j].0@ == k);
        }
    }
    assert forall|k: Text| map_of(b).contains_key(k) implies map_of(b)[k] == m[k] by {
        let j = choose|j: int| 0 <= j < b.len() && #[trigger] b[j].0@ == k;
        assert(a[j].0@ == k);
        if j != i {
            lemma_distinct(a, i, j);
        }
    }
    assert(map_of(b) =~= m);
}

proof fn lemma_distinct<V>(a: Seq<(String, V)>, i: int, j: int)
    requires
        ascending(a),
        0 <= i < a.len(),
        0 <= j < a.len(),
        i != j,
    ensures
        a[i].0@ != a[j].0@,
{
    lemma_lex_irreflexive(a[i].0@);
    if i < j {
        assert(lex_lt(a[i].0@, a[j].0@));
    } else {
        assert(lex_lt(a[j].0@, a[i].0@));
    }
}

proof fn lemma_insert_ascending<V>(a: Seq<(String, V)>, e: (String, V), i: int)
    requires
        0 <= i <= a.len(),
        ascending(a),
        forall|j: int| 0 <= j < i ==> lex_lt(#[trigger] a[j].0@, e.0@),
        forall|j: int| i <= j < a.len() ==> lex_lt(e.0@, #[trigger] a[j].0@),
    ensures
        ascending(a.insert(i, e)),
{
    let b = a.insert(i, e);
    assert forall|p: int, q: int| 0 <= p < q < b.len() implies lex_lt(
        #[trigger] b[p].0@,
        #[trigger] b[q].0@,
    ) by {
        let pa = if p < i { p } else { p - 1 };
        let qa = if q < i { q } else { q - 1 };
        if p != i {
            assert(b[p] == a[pa]);
        }
        if q != i {
            assert(b[q] == a[qa]);
        }
    }
}

proof fn lemma_same_map_insert<V>(a: Seq<(String, V)>, e: (String, V), i: int)
    requires
        0 <= i <= a.len(),
        ascending(a),
        ascending(a.insert(i, e)),
    ensures
        map_of(a.insert(i, e)) == map_of(a).insert(e.0@, e.1),
{
    let b = a.insert(i, e);
    lemma_map_of(a);
    lemma_map_of(b);
    let m = map_of(a).insert(e.0@, e.1);
    assert(b[i] == e);
    assert forall|k: Text| map_of(b).contains_key(k) == m.contains_key(k) by {
        if map_of(b).contains_key(k) {
            let j = choose|j: int| 0 <= j < b.len() && #[trigger] b[j].0@ == k;
            if j < i {
                assert(a[j].0@ == k);
            } else if j > i {
                assert(a[j - 1].0@ == k);
            }
        }
        if m.contains_key(k) && k != e.0@ {
            let j = choose|j: int| 0 <= j < a.len() && #[trigger] a[j].0@ == k;
            if j < i {
                assert(b[j].0@ == k);
            } else {
                assert(b[j + 1].0@ == k);
            }
        }
    }
    assert forall|k: Text| map_of(b).contains_key(k) implies map_of(b)[k] == m[k] by {
        let j = choose|j: int| 0 <= j < b.len() && #[trigger] b[j].0@ == k;
        if j != i {
            lemma_distinct(b, i, j);
            if j < i {
                assert(a[j] == b[j]);
            } else {
                assert(a[j - 1] == b[j]);
            }
        }
    }
    assert(map_of(b) =~= m);
}

proof fn lemma_remove_map<V>(a: Seq<(String, V)>, i: int)
    requires
        0 <= i < a.len(),
        ascending(a),
    ensures
        ascending(a.remove(i)),
        map_of(a.remove(i)) == map_of(a).remove(a[i].0@),
{
    let b = a.remove(i);
    assert forall|p: int, q: int| 0 <= p < q < b.len() implies lex_lt(
        #[trigger] b[p].0@,
        #[trigger] b[q].0@,
    ) by {
        let pa = if p < i { p } else { p + 1 };
        let qa = if q < i { q } else { q + 1 };
        assert(b[p] == a[pa]);
        assert(b[q] == a[qa]);
    }
    lemma_map_of(a);
    lemma_map_of(b);
    let m = map_of(a).remove(a[i].0@);
    assert forall|k: Text| map_of(b).contains_key(k) == m.contains_key(k) by {
        if map_of(b).contains_key(k) {
            let j = choose|j: int| 0 <= j < b.len() && #[trigger] b[j].0@ == k;
            let ja = if j < i { j } else { j + 1 };
            assert(b[j] == a[ja]);
            lemma_distinct(a, i, ja);
        }
        if m.contains_key(k) {
            let j = choose|j: int| 0 <= j < a.len() && #[trigger] a[j].0@ == k;
            let jb = if j < i { j } else { j - 1 };
            assert(b[jb] == a[j]);
        }
    }
    assert forall|k: Text| map_of(b).contains_key(k) implies map_of(b)[k] == m[k] by {
        let j = choose|j: int| 0 <= j < b.len() && #[trigger] b[j].0@ == k;
        let ja = if j < i { j } else { j + 1 };
        assert(b[j] == a[ja]);
        lemma_distinct(a, i, ja);
    }
    assert(map_of(b) =~= m);
}

} // verus!
