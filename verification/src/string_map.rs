//! A map from strings to strings, kept sorted by key.

use vstd::prelude::*;

use crate::text::{compare_str, lemma_lex_asymmetric, lemma_lex_irreflexive, lemma_lex_total, lemma_lex_transitive, lex_less, StrOrder};

verus! {

/// The pairs of a list of owned string pairs, as character sequences.
pub open spec fn pairs_view(s: Seq<(String, String)>) -> Seq<(Seq<char>, Seq<char>)> {
    s.map_values(|e: (String, String)| (e.0@, e.1@))
}

/// Keys strictly increase along the list (so no key occurs twice).
pub open spec fn keys_sorted(s: Seq<(Seq<char>, Seq<char>)>) -> bool {
    forall|i: int, j: int| 0 <= i < j < s.len() ==> lex_less(s[i].0, s[j].0)
}

/// `k` is the key at position `i`.
pub open spec fn key_at(s: Seq<(Seq<char>, Seq<char>)>, k: Seq<char>, i: int) -> bool {
    0 <= i < s.len() && s[i].0 == k
}

/// The map a list of pairs stands for (with distinct keys, each key to its value).
pub open spec fn pairs_map(s: Seq<(Seq<char>, Seq<char>)>) -> Map<Seq<char>, Seq<char>> {
    Map::new(
        |k: Seq<char>| exists|i: int| key_at(s, k, i),
        |k: Seq<char>| s[choose|i: int| key_at(s, k, i)].1,
    )
}

/// The list of pairs of `m`, sorted by key.
pub open spec fn sorted_pairs(m: Map<Seq<char>, Seq<char>>) -> Seq<(Seq<char>, Seq<char>)> {
    choose|s: Seq<(Seq<char>, Seq<char>)>| keys_sorted(s) && pairs_map(s) == m
}

/// In a sorted list, the entry at `i` is what the map holds for its key.
pub proof fn lemma_pairs_map_at(s: Seq<(Seq<char>, Seq<char>)>, i: int)
    requires
        keys_sorted(s),
        0 <= i < s.len(),
    ensures
        pairs_map(s).contains_key(s[i].0),
        pairs_map(s)[s[i].0] == s[i].1,
{
    assert(key_at(s, s[i].0, i));
    let j = choose|j: int| key_at(s, s[i].0, j);
    if j < i {
        lemma_lex_irreflexive(s[i].0);
        assert(lex_less(s[j].0, s[i].0));
    } else if i < j {
        lemma_lex_irreflexive(s[i].0);
        assert(lex_less(s[i].0, s[j].0));
    }
}

/// Without its first entry, a sorted list stands for the map without the first key.
proof fn lemma_pairs_map_drop_first(s: Seq<(Seq<char>, Seq<char>)>)
    requires
        keys_sorted(s),
        s.len() > 0,
    ensures
        keys_sorted(s.drop_first()),
        pairs_map(s.drop_first()) =~= pairs_map(s).remove(s[0].0),
{
    let t = s.drop_first();
    assert forall|i: int, j: int| 0 <= i < j < t.len() implies lex_less(t[i].0, t[j].0) by {
        assert(t[i] == s[i + 1] && t[j] == s[j + 1]);
    }
    assert forall|k: Seq<char>| pairs_map(t).contains_key(k) <==> pairs_map(s).remove(s[0].0).contains_key(k) by {
        if pairs_map(t).contains_key(k) {
            let i = choose|i: int| key_at(t, k, i);
            assert(key_at(s, k, i + 1));
            lemma_lex_irreflexive(k);
            assert(lex_less(s[0].0, s[i + 1].0));
        }
        if pairs_map(s).remove(s[0].0).contains_key(k) {
            let i = choose|i: int| key_at(s, k, i);
            assert(i != 0);
            assert(key_at(t, k, i - 1));
        }
    }
    assert forall|k: Seq<char>| #[trigger] pairs_map(t).contains_key(k) implies pairs_map(t)[k] == pairs_map(s)[k] by {
        let i = choose|i: int| key_at(t, k, i);
        lemma_pairs_map_at(t, i);
        lemma_pairs_map_at(s, i + 1);
    }
}

/// Two sorted lists that stand for the same map are the same list.
pub proof fn lemma_sorted_pairs_unique(s: Seq<(Seq<char>, Seq<char>)>, t: Seq<(Seq<char>, Seq<char>)>)
    requires
        keys_sorted(s),
        keys_sorted(t),
        pairs_map(s) == pairs_map(t),
    ensures
        s == t,
    decreases s.len(),
{
    if s.len() == 0 {
        if t.len() > 0 {
            lemma_pairs_map_at(t, 0);
        }
        assert(s =~= t);
    } else {
        lemma_pairs_map_at(s, 0);
        if t.len() == 0 {
            assert(!pairs_map(t).contains_key(s[0].0));
        } else {
            lemma_pairs_map_at(t, 0);
            // The smallest keys agree.
            let a = s[0].0;
            let b = t[0].0;
            if a != b {
                let i = choose|i: int| key_at(t, a, i);
                let j = choose|j: int| key_at(s, b, j);
                assert(i > 0 && j > 0);
                assert(lex_less(b, a));
                assert(lex_less(a, b));
                lemma_lex_asymmetric(a, b);
            }
            lemma_pairs_map_drop_first(s);
            lemma_pairs_map_drop_first(t);
            lemma_sorted_pairs_unique(s.drop_first(), t.drop_first());
            assert(s =~= seq![s[0]] + s.drop_first());
            assert(t =~= seq![t[0]] + t.drop_first());
        }
    }
}

/// A sorted list is the sorted list of the map it stands for.
pub proof fn lemma_sorted_pairs_of(s: Seq<(Seq<char>, Seq<char>)>)
    requires
        keys_sorted(s),
    ensures
        sorted_pairs(pairs_map(s)) == s,
{
    let t = sorted_pairs(pairs_map(s));
    lemma_sorted_pairs_unique(s, t);
}


/// In a sorted list, the first `i + 1` entries stand for the map of the first `i`
/// with the entry at `i` added.
pub proof fn lemma_pairs_map_take_push(s: Seq<(Seq<char>, Seq<char>)>, i: int)
    requires
        keys_sorted(s),
        0 <= i < s.len(),
    ensures
        pairs_map(s.take(i + 1)) =~= pairs_map(s.take(i)).insert(s[i].0, s[i].1),
{
    let a = s.take(i);
    let b = s.take(i + 1);
    assert(keys_sorted(a));
    assert(keys_sorted(b));
    assert forall|k: Seq<char>| pairs_map(b).contains_key(k) <==> pairs_map(a).insert(s[i].0, s[i].1).contains_key(k) by {
        if pairs_map(b).contains_key(k) {
            let j = choose|j: int| key_at(b, k, j);
            if j < i {
                assert(key_at(a, k, j));
            }
        }
        if pairs_map(a).contains_key(k) {
            let j = choose|j: int| key_at(a, k, j);
            assert(key_at(b, k, j));
        }
        if k == s[i].0 {
            assert(key_at(b, k, i));
        }
    }
    assert forall|k: Seq<char>| #[trigger] pairs_map(b).contains_key(k) implies pairs_map(b)[k] == pairs_map(a).insert(s[i].0, s[i].1)[k] by {
        let j = choose|j: int| key_at(b, k, j);
        lemma_pairs_map_at(b, j);
        if j < i {
            lemma_pairs_map_at(a, j);
            lemma_lex_irreflexive(k);
            assert(lex_less(b[j].0, b[i].0));
        }
    }
}

/// A map from strings to strings whose entries are kept in increasing key order,
/// so that iteration is deterministic.
pub struct StringMap {
    entries: Vec<(String, String)>,
}

impl View for StringMap {
    type V = Map<Seq<char>, Seq<char>>;

    closed spec fn view(&self) -> Map<Seq<char>, Seq<char>> {
        pairs_map(pairs_view(self.entries@))
    }
}

impl StringMap {
    #[verifier::type_invariant]
    spec fn sorted(self) -> bool {
        keys_sorted(pairs_view(self.entries@))
    }

    /// An empty map.
    pub fn new() -> (m: StringMap)
        ensures
            m@ == Map::<Seq<char>, Seq<char>>::empty(),
    {
        let m = StringMap { entries: Vec::new() };
        assert(m@ =~= Map::<Seq<char>, Seq<char>>::empty());
        m
    }

    /// The number of keys.
    pub fn len(&self) -> (n: usize)
        ensures
            n == self@.len(),
            self@.dom().finite(),
    {
        proof {
            use_type_invariant(self);
            self.lemma_dom();
        }
        self.entries.len()
    }

    /// The domain of the map is the keys of the entries, one per entry.
    proof fn lemma_dom(&self)
        requires
            self.sorted(),
        ensures
            self@.dom().finite(),
            self@.len() == self.entries@.len(),
        decreases self.entries@.len(),
    {
        let s = pairs_view(self.entries@);
        let keys = s.map_values(|e: (Seq<char>, Seq<char>)| e.0);
        assert forall|i: int, j: int| 0 <= i < keys.len() && 0 <= j < keys.len() && i != j implies keys[i] != keys[j] by {
            lemma_lex_irreflexive(keys[i]);
            if i < j {
                assert(lex_less(s[i].0, s[j].0));
            } else {
                assert(lex_less(s[j].0, s[i].0));
            }
        }
        assert(keys.no_duplicates());
        keys.unique_seq_to_set();
        assert(self@.dom() =~= keys.to_set()) by {
            assert forall|k: Seq<char>| self@.dom().contains(k) implies keys.to_set().contains(k) by {
                let i = choose|i: int| key_at(s, k, i);
                assert(keys[i] == k);
            }
            assert forall|k: Seq<char>| keys.to_set().contains(k) implies self@.dom().contains(k) by {
                let i = choose|i: int| 0 <= i < keys.len() && keys[i] == k;
                assert(key_at(s, k, i));
            }
        }
    }

    /// The value for `key`, if any.
    pub fn get(&self, key: &str) -> (r: Option<&String>)
        ensures
            match r {
                Some(v) => self@.contains_key(key@) && self@[key@] == v@,
                None => !self@.contains_key(key@),
            },
    {
        proof {
            use_type_invariant(self);
        }
        let ghost s = pairs_view(self.entries@);
        let mut i: usize = 0;
        while i < self.entries.len()
            invariant
                s == pairs_view(self.entries@),
                keys_sorted(s),
                i <= self.entries.len(),
                forall|j: int| 0 <= j < i ==> s[j].0 != key@,
            decreases self.entries.len() - i,
        {
            if compare_str(self.entries[i].0.as_str(), key) == StrOrder::Equal {
                proof {
                    lemma_pairs_map_at(s, i as int);
                }
                return Some(&self.entries[i].1);
            }
            i = i + 1;
        }
        None
    }

    /// The position where `key` is, or where it would be inserted: every key
    /// before it is smaller.
    fn position(&self, key: &str) -> (p: usize)
        requires
            self.sorted(),
        ensures
            p <= self.entries.len(),
            forall|j: int| 0 <= j < p ==> lex_less(pairs_view(self.entries@)[j].0, key@),
            p < self.entries.len() ==> !lex_less(pairs_view(self.entries@)[p as int].0, key@),
    {
        let ghost s = pairs_view(self.entries@);
        let mut p: usize = 0;
        while p < self.entries.len()
            invariant
                s == pairs_view(self.entries@),
                p <= self.entries.len(),
                forall|j: int| 0 <= j < p ==> lex_less(s[j].0, key@),
            decreases self.entries.len() - p,
        {
            if compare_str(self.entries[p].0.as_str(), key) != StrOrder::Less {
                return p;
            }
            p = p + 1;
        }
        p
    }

    /// Sets `key` to `value`, replacing any earlier value.
    pub fn insert(&mut self, key: String, value: String)
        ensures
            final(self)@ == old(self)@.insert(key@, value@),
    {
        proof {
            use_type_invariant(&*self);
        }
        let ghost old_map = self@;
        let mut entries: Vec<(String, String)> = Vec::new();
        std::mem::swap(&mut entries, &mut self.entries);
        let ghost s = pairs_view(entries@);
        let tmp = StringMap { entries };
        let p = tmp.position(key.as_str());
        let StringMap { entries: mut entries } = tmp;
        if p < entries.len() && compare_str(entries[p].0.as_str(), key.as_str()) == StrOrder::Equal {
            let ghost k = key@;
            entries.set(p, (key, value));
            proof {
                let t = pairs_view(entries@);
                assert(t =~= s.update(p as int, (k, value@)));
                assert(keys_sorted(t)) by {
                    assert forall|i: int, j: int| 0 <= i < j < t.len() implies lex_less(t[i].0, t[j].0) by {
                        assert(t[i].0 == s[i].0 && t[j].0 == s[j].0);
                    }
                }
                lemma_update_map(s, t, p as int);
                assert(pairs_map(t) =~= old_map.insert(k, value@));
            }
            self.entries = entries;
        } else {
            let ghost k = key@;
            let ghost v = value@;
            entries.insert(p, (key, value));
            proof {
                let t = pairs_view(entries@);
                assert(t =~= s.insert(p as int, (k, v)));
                if p < s.len() {
                    lemma_lex_total(s[p as int].0, k);
                }
                lemma_insert_sorted(s, p as int, k, v);
                assert(pairs_map(t) =~= old_map.insert(k, v));
            }
            self.entries = entries;
        }
    }

    /// Sets `key` to `value` unless `key` is already present; the first value wins.
    pub fn insert_if_absent(&mut self, key: String, value: String)
        ensures
            final(self)@ == (if old(self)@.contains_key(key@) {
                old(self)@
            } else {
                old(self)@.insert(key@, value@)
            }),
    {
        match self.get(key.as_str()) {
            Some(_) => {},
            None => self.insert(key, value),
        }
    }

    /// The entries in increasing key order.
    pub fn sorted_entries(&self) -> (r: Vec<(String, String)>)
        ensures
            keys_sorted(pairs_view(r@)),
            pairs_map(pairs_view(r@)) == self@,
            pairs_view(r@) == sorted_pairs(self@),
    {
        proof {
            use_type_invariant(self);
        }
        let mut r: Vec<(String, String)> = Vec::new();
        let mut i: usize = 0;
        while i < self.entries.len()
            invariant
                i <= self.entries.len(),
                pairs_view(r@) =~= pairs_view(self.entries@).take(i as int),
            decreases self.entries.len() - i,
        {
            let k = self.entries[i].0.clone();
            let v = self.entries[i].1.clone();
            assert(k@ == self.entries@[i as int].0@);
            assert(v@ == self.entries@[i as int].1@);
            let ghost before = r@;
            r.push((k, v));
            proof {
                assert(r@ == before.push((k, v)));
                assert(pairs_view(before).len() == before.len());
                assert(before.len() == i);
                assert(r@[i as int] == (k, v));
                assert(pairs_view(r@)[i as int] == pairs_view(self.entries@)[i as int]);
                assert(pairs_view(r@) =~= pairs_view(before).push(pairs_view(self.entries@)[i as int]));
            }
            i = i + 1;
        }
        proof {
            assert(pairs_view(self.entries@).take(self.entries.len() as int) =~= pairs_view(self.entries@));
            lemma_sorted_pairs_of(pairs_view(r@));
        }
        r
    }
}

/// Changing the value at one position of a sorted list changes the map at that key.
proof fn lemma_update_map(s: Seq<(Seq<char>, Seq<char>)>, t: Seq<(Seq<char>, Seq<char>)>, p: int)
    requires
        keys_sorted(s),
        keys_sorted(t),
        0 <= p < s.len(),
        t.len() == s.len(),
        t[p].0 == s[p].0,
        forall|i: int| 0 <= i < s.len() && i != p ==> t[i] == s[i],
    ensures
        pairs_map(t) =~= pairs_map(s).insert(s[p].0, t[p].1),
{
    assert forall|k: Seq<char>| pairs_map(t).contains_key(k) <==> pairs_map(s).insert(s[p].0, t[p].1).contains_key(k) by {
        if pairs_map(t).contains_key(k) {
            let i = choose|i: int| key_at(t, k, i);
            if i != p {
                assert(key_at(s, k, i));
            }
        }
        if pairs_map(s).contains_key(k) {
            let i = choose|i: int| key_at(s, k, i);
            assert(key_at(t, k, i));
        }
        if k == s[p].0 {
            assert(key_at(t, k, p));
        }
    }
    assert forall|k: Seq<char>| #[trigger] pairs_map(t).contains_key(k) implies pairs_map(t)[k] == pairs_map(s).insert(s[p].0, t[p].1)[k] by {
        let i = choose|i: int| key_at(t, k, i);
        lemma_pairs_map_at(t, i);
        if i != p {
            lemma_pairs_map_at(s, i);
            lemma_lex_irreflexive(k);
            if i < p {
                assert(lex_less(t[i].0, t[p].0));
            } else {
                assert(lex_less(t[p].0, t[i].0));
            }
        }
    }
}

/// Inserting a new key at its sorted position keeps the list sorted and adds the key to the map.
proof fn lemma_insert_sorted(s: Seq<(Seq<char>, Seq<char>)>, p: int, k: Seq<char>, v: Seq<char>)
    requires
        keys_sorted(s),
        0 <= p <= s.len(),
        forall|j: int| 0 <= j < p ==> lex_less(s[j].0, k),
        p < s.len() ==> lex_less(k, s[p].0),
    ensures
        keys_sorted(s.insert(p, (k, v))),
        pairs_map(s.insert(p, (k, v))) =~= pairs_map(s).insert(k, v),
{
    let t = s.insert(p, (k, v));
    assert forall|j: int| p <= j < s.len() implies lex_less(k, s[j].0) by {
        if j > p {
            lemma_lex_transitive(k, s[p].0, s[j].0);
        }
    }
    assert forall|i: int, j: int| 0 <= i < j < t.len() implies lex_less(t[i].0, t[j].0) by {
        if j < p {
        } else if j == p {
        } else if i < p {
            lemma_lex_transitive(s[i].0, k, s[j - 1].0);
        } else if i == p {
        } else {
        }
    }
    assert forall|kk: Seq<char>| pairs_map(t).contains_key(kk) <==> pairs_map(s).insert(k, v).contains_key(kk) by {
        if pairs_map(t).contains_key(kk) {
            let i = choose|i: int| key_at(t, kk, i);
            if i < p {
                assert(key_at(s, kk, i));
            } else if i > p {
                assert(key_at(s, kk, i - 1));
            }
        }
        if pairs_map(s).contains_key(kk) {
            let i = choose|i: int| key_at(s, kk, i);
            if i < p {
                assert(key_at(t, kk, i));
            } else {
                assert(key_at(t, kk, i + 1));
            }
        }
        if kk == k {
            assert(key_at(t, kk, p));
        }
    }
    assert forall|kk: Seq<char>| #[trigger] pairs_map(t).contains_key(kk) implies pairs_map(t)[kk] == pairs_map(s).insert(k, v)[kk] by {
        let i = choose|i: int| key_at(t, kk, i);
        lemma_pairs_map_at(t, i);
        lemma_lex_irreflexive(kk);
        if i < p {
            lemma_pairs_map_at(s, i);
            assert(lex_less(t[i].0, t[p].0));
        } else if i > p {
            lemma_pairs_map_at(s, i - 1);
            assert(lex_less(t[p].0, t[i].0));
        }
    }
}

} // verus!
