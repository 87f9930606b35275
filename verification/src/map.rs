//! A map from names to values kept as a list sorted by name, so that walking
//! it visits names in ascending order, as `BTreeMap` does.
use vstd::prelude::*;

use crate::order::{
    compare_str, lemma_lt_asymmetric, lemma_lt_irreflexive, lemma_lt_transitive, seq_lt,
    strictly_sorted,
};

verus! {

/// A value that a `PathMap` can hold: it has a mathematical value, and can be
/// compared and copied without losing it.
pub trait MapValue: Sized {
    type V;

    spec fn vv(&self) -> Self::V;

    fn same(&self, other: &Self) -> (r: bool)
        ensures
            r == (self.vv() == other.vv()),
    ;

    fn duplicate(&self) -> (r: Self)
        ensures
            r.vv() == self.vv(),
    ;
}

impl MapValue for String {
    type V = Seq<char>;

    open spec fn vv(&self) -> Seq<char> {
        self@
    }

    fn same(&self, other: &Self) -> (r: bool) {
        *self == *other
    }

    fn duplicate(&self) -> (r: Self) {
        self.clone()
    }
}

impl<T: MapValue> MapValue for Option<T> {
    type V = Option<T::V>;

    open spec fn vv(&self) -> Option<T::V> {
        match self {
            Some(x) => Some(x.vv()),
            None => None,
        }
    }

    fn same(&self, other: &Self) -> (r: bool) {
        match (self, other) {
            (Some(a), Some(b)) => a.same(b),
            (None, None) => true,
            _ => false,
        }
    }

    fn duplicate(&self) -> (r: Self) {
        match self {
            Some(x) => Some(x.duplicate()),
            None => None,
        }
    }
}

/// The names of a listing, in order.
pub open spec fn keys_of<X>(s: Seq<(Seq<char>, X)>) -> Seq<Seq<char>> {
    Seq::new(s.len(), |i: int| s[i].0)
}

/// The map a listing describes; a later entry for a name wins.
pub open spec fn map_of<X>(s: Seq<(Seq<char>, X)>) -> Map<Seq<char>, X>
    decreases s.len(),
{
    if s.len() == 0 {
        Map::empty()
    } else {
        map_of(s.drop_last()).insert(s.last().0, s.last().1)
    }
}

pub proof fn lemma_map_of_dom<X>(s: Seq<(Seq<char>, X)>, k: Seq<char>)
    ensures
        map_of(s).dom().contains(k) <==> exists|i: int| 0 <= i < s.len() && s[i].0 == k,
    decreases s.len(),
{
    if s.len() > 0 {
        lemma_map_of_dom(s.drop_last(), k);
        if map_of(s).dom().contains(k) && k != s.last().0 {
            let i = choose|i: int| 0 <= i < s.drop_last().len() && s.drop_last()[i].0 == k;
            assert(s[i].0 == k);
        }
        if exists|i: int| 0 <= i < s.len() && s[i].0 == k {
            let i = choose|i: int| 0 <= i < s.len() && s[i].0 == k;
            if i < s.len() - 1 {
                assert(s.drop_last()[i].0 == k);
            }
        }
    }
}

pub proof fn lemma_sorted_distinct<X>(s: Seq<(Seq<char>, X)>, i: int, j: int)
    requires
        strictly_sorted(keys_of(s)),
        0 <= i < s.len(),
        0 <= j < s.len(),
        i != j,
    ensures
        s[i].0 != s[j].0,
{
    if i < j {
        assert(seq_lt(keys_of(s)[i], keys_of(s)[j]));
        lemma_lt_irreflexive(s[i].0);
    } else {
        assert(seq_lt(keys_of(s)[j], keys_of(s)[i]));
        lemma_lt_irreflexive(s[i].0);
    }
}

pub proof fn lemma_map_of_value<X>(s: Seq<(Seq<char>, X)>, i: int)
    requires
        strictly_sorted(keys_of(s)),
        0 <= i < s.len(),
    ensures
        map_of(s).dom().contains(s[i].0),
        map_of(s)[s[i].0] == s[i].1,
    decreases s.len(),
{
    lemma_map_of_dom(s, s[i].0);
    if i < s.len() - 1 {
        let t = s.drop_last();
        assert(keys_of(t) =~= keys_of(s).drop_last());
        assert(strictly_sorted(keys_of(t)));
        lemma_sorted_distinct(s, i, s.len() - 1);
        lemma_map_of_value(t, i);
    }
}

/// A listing sorted by name is determined by the map it describes.
pub proof fn lemma_sorted_unique<X>(s: Seq<(Seq<char>, X)>, t: Seq<(Seq<char>, X)>)
    requires
        strictly_sorted(keys_of(s)),
        strictly_sorted(keys_of(t)),
        map_of(s) == map_of(t),
    ensures
        s == t,
    decreases s.len() + t.len(),
{
    if s.len() == 0 && t.len() == 0 {
        assert(s =~= t);
    } else if s.len() == 0 {
        lemma_map_of_dom(t, t[0].0);
        lemma_map_of_dom(s, t[0].0);
    } else if t.len() == 0 {
        lemma_map_of_dom(s, s[0].0);
        lemma_map_of_dom(t, s[0].0);
    } else {
        let a = s.last().0;
        let b = t.last().0;
        lemma_map_of_dom(s, b);
        lemma_map_of_dom(t, a);
        lemma_map_of_dom(s, a);
        lemma_map_of_dom(t, b);
        // the last name of each is the greatest name of the shared domain
        let i = choose|i: int| 0 <= i < s.len() && s[i].0 == b;
        let j = choose|j: int| 0 <= j < t.len() && t[j].0 == a;
        if i < s.len() - 1 {
            assert(seq_lt(keys_of(s)[i], keys_of(s)[s.len() - 1]));
        }
        if j < t.len() - 1 {
            assert(seq_lt(keys_of(t)[j], keys_of(t)[t.len() - 1]));
        }
        if a != b {
            if i < s.len() - 1 && j < t.len() - 1 {
                lemma_lt_asymmetric(a, b);
            } else if i == s.len() - 1 {
                assert(s[i].0 == a);
            } else {
                assert(t[j].0 == b);
            }
        }
        assert(a == b);
        lemma_map_of_value(s, s.len() - 1);
        lemma_map_of_value(t, t.len() - 1);
        let s2 = s.drop_last();
        let t2 = t.drop_last();
        assert(keys_of(s2) =~= keys_of(s).drop_last());
        assert(keys_of(t2) =~= keys_of(t).drop_last());
        assert forall|k: Seq<char>| #[trigger] map_of(s2).dom().contains(k) implies k != a by {
            lemma_map_of_dom(s2, k);
            let m = choose|m: int| 0 <= m < s2.len() && s2[m].0 == k;
            lemma_sorted_distinct(s, m, s.len() - 1);
        }
        assert forall|k: Seq<char>| #[trigger] map_of(t2).dom().contains(k) implies k != a by {
            lemma_map_of_dom(t2, k);
            let m = choose|m: int| 0 <= m < t2.len() && t2[m].0 == k;
            lemma_sorted_distinct(t, m, t.len() - 1);
        }
        assert(map_of(s2) =~= map_of(s).remove(a));
        assert(map_of(t2) =~= map_of(t).remove(a));
        lemma_sorted_unique(s2, t2);
        assert(s =~= s2.push(s.last()));
        assert(t =~= t2.push(t.last()));
    }
}

/// A map from names to values, listed in ascending order of name.
pub struct PathMap<V: MapValue> {
    entries: Vec<(String, V)>,
}

impl<V: MapValue> PathMap<V> {
    /// The entries in order, as names and mathematical values.
    pub closed spec fn listing(&self) -> Seq<(Seq<char>, V::V)> {
        Seq::new(self.entries@.len(), |i: int| (self.entries@[i].0@, self.entries@[i].1.vv()))
    }

    #[verifier::type_invariant]
    closed spec fn sorted(&self) -> bool {
        strictly_sorted(keys_of(self.listing()))
    }

    /// The names are listed strictly ascending.
    pub open spec fn wf(&self) -> bool {
        strictly_sorted(keys_of(self.listing()))
    }

    pub open spec fn map(&self) -> Map<Seq<char>, V::V> {
        map_of(self.listing())
    }

    pub fn new() -> (r: Self)
        ensures
            r.listing() == Seq::<(Seq<char>, V::V)>::empty(),
            r.map() == Map::<Seq<char>, V::V>::empty(),
            r.wf(),
    {
        let r = PathMap { entries: Vec::new() };
        assert(r.listing() =~= Seq::<(Seq<char>, V::V)>::empty());
        r
    }

    pub fn len(&self) -> (n: usize)
        ensures
            n == self.listing().len(),
            self.wf(),
    {
        proof {
            use_type_invariant(self);
        }
        self.entries.len()
    }

    pub fn key_at(&self, i: usize) -> (k: &String)
        requires
            i < self.listing().len(),
        ensures
            k@ == self.listing()[i as int].0,
            self.wf(),
    {
        proof {
            use_type_invariant(self);
        }
        &self.entries[i].0
    }

    pub fn value_at(&self, i: usize) -> (v: &V)
        requires
            i < self.listing().len(),
        ensures
            v.vv() == self.listing()[i as int].1,
            self.wf(),
    {
        proof {
            use_type_invariant(self);
        }
        &self.entries[i].1
    }

    /// Where `key` stands, or would stand, in the listing.
    fn position(&self, key: &str) -> (r: (usize, bool))
        ensures
            r.0 <= self.listing().len(),
            r.1 ==> r.0 < self.listing().len() && self.listing()[r.0 as int].0 == key@,
            forall|i: int| 0 <= i < r.0 ==> seq_lt(#[trigger] self.listing()[i].0, key@),
            forall|i: int|
                r.0 <= i < self.listing().len() && !(r.1 && i == r.0) ==> seq_lt(
                    key@,
                    #[trigger] self.listing()[i].0,
                ),
    {
        proof {
            use_type_invariant(self);
        }
        let mut i: usize = 0;
        while i < self.entries.len()
            invariant
                i <= self.entries@.len(),
                self.listing().len() == self.entries@.len(),
                strictly_sorted(keys_of(self.listing())),
                forall|j: int| 0 <= j < i ==> seq_lt(#[trigger] self.listing()[j].0, key@),
            decreases self.entries@.len() - i,
        {
            let c = compare_str(self.entries[i].0.as_str(), key);
            if c == 0 {
                proof {
                    assert forall|j: int| i < j < self.listing().len() implies seq_lt(
                        key@,
                        #[trigger] self.listing()[j].0,
                    ) by {
                        assert(seq_lt(keys_of(self.listing())[i as int], keys_of(self.listing())[j]));
                    }
                }
                return (i, true);
            }
            if c > 0 {
                proof {
                    assert forall|j: int| i <= j < self.listing().len() implies seq_lt(
                        key@,
                        #[trigger] self.listing()[j].0,
                    ) by {
                        if j > i {
                            assert(seq_lt(
                                keys_of(self.listing())[i as int],
                                keys_of(self.listing())[j],
                            ));
                            lemma_lt_transitive(key@, self.listing()[i as int].0, self.listing()[j].0);
                        }
                    }
                }
                return (i, false);
            }
            i = i + 1;
        }
        (i, false)
    }

    pub fn get(&self, key: &str) -> (r: Option<&V>)
        ensures
            r is Some <==> self.map().dom().contains(key@),
            r matches Some(v) ==> v.vv() == self.map()[key@],
            self.wf(),
    {
        proof {
            use_type_invariant(self);
        }
        let (p, found) = self.position(key);
        proof {
            lemma_map_of_dom(self.listing(), key@);
            if !found {
                assert forall|i: int| 0 <= i < self.listing().len() implies self.listing()[i].0
                    != key@ by {
                    lemma_lt_irreflexive(key@);
                }
            }
        }
        if found {
            proof {
                lemma_map_of_value(self.listing(), p as int);
            }
            Some(&self.entries[p].1)
        } else {
            None
        }
    }

    pub fn contains_key(&self, key: &str) -> (r: bool)
        ensures
            r == self.map().dom().contains(key@),
            self.wf(),
    {
        self.get(key).is_some()
    }

    /// Sets `key` to `value`, keeping the listing sorted.
    pub fn insert(&mut self, key: String, value: V)
        ensures
            final(self).map() == old(self).map().insert(key@, value.vv()),
            final(self).wf(),
    {
        proof {
            use_type_invariant(&*self);
        }
        let (p, found) = self.position(key.as_str());
        let ghost s = self.listing();
        let ghost kv = key@;
        let ghost vv = value.vv();
        let mut entries: Vec<(String, V)> = Vec::new();
        std::mem::swap(&mut entries, &mut self.entries);
        assert(s == Seq::new(entries@.len(), |i: int| (entries@[i].0@, entries@[i].1.vv())));
        if found {
            entries.set(p, (key, value));
        } else {
            entries.insert(p, (key, value));
        }
        let ghost t = Seq::new(entries@.len(), |i: int| (entries@[i].0@, entries@[i].1.vv()));
        proof {
            if found {
                assert(t =~= s.update(p as int, (kv, vv)));
            } else {
                assert(t =~= s.take(p as int).push((kv, vv)) + s.skip(p as int));
            }
            assert forall|i: int, j: int| 0 <= i < j < t.len() implies seq_lt(
                #[trigger] keys_of(t)[i],
                #[trigger] keys_of(t)[j],
            ) by {
                if found {
                    if i != p && j != p {
                        assert(seq_lt(keys_of(s)[i], keys_of(s)[j]));
                    }
                } else {
                    if i < p && j > p {
                        assert(seq_lt(keys_of(s)[i], keys_of(s)[j - 1]));
                        lemma_lt_transitive(keys_of(s)[i], kv, keys_of(s)[j - 1]);
                    } else if i > p {
                        assert(seq_lt(keys_of(s)[i - 1], keys_of(s)[j - 1]));
                    } else if j < p {
                        assert(seq_lt(keys_of(s)[i], keys_of(s)[j]));
                    }
                }
            }
            assert forall|k: Seq<char>| #![auto]
                map_of(t).dom().contains(k) == map_of(s).insert(kv, vv).dom().contains(k) by {
                lemma_map_of_dom(t, k);
                lemma_map_of_dom(s, k);
                if exists|i: int| 0 <= i < s.len() && s[i].0 == k {
                    let i = choose|i: int| 0 <= i < s.len() && s[i].0 == k;
                    if found {
                        if i == p {
                            assert(t[i].0 == k);
                        } else {
                            assert(t[i].0 == k);
                        }
                    } else if i < p {
                        assert(t[i].0 == k);
                    } else {
                        assert(t[i + 1].0 == k);
                    }
                }
                if k == kv {
                    assert(t[p as int].0 == k);
                }
                if exists|i: int| 0 <= i < t.len() && t[i].0 == k {
                    let i = choose|i: int| 0 <= i < t.len() && t[i].0 == k;
                    if k != kv {
                        if found {
                            assert(s[i].0 == k);
                        } else if i < p {
                            assert(s[i].0 == k);
                        } else {
                            assert(i != p);
                            assert(s[i - 1].0 == k);
                        }
                    }
                }
            }
            assert forall|k: Seq<char>| #[trigger] map_of(t).dom().contains(k) implies map_of(t)[k]
                == map_of(s).insert(kv, vv)[k] by {
                lemma_map_of_dom(t, k);
                let i = choose|i: int| 0 <= i < t.len() && t[i].0 == k;
                lemma_map_of_value(t, i);
                if k == kv && i != p {
                    lemma_sorted_distinct(t, i, p as int);
                }
                if k != kv {
                    if found {
                        lemma_map_of_value(s, i);
                    } else if i < p {
                        lemma_map_of_value(s, i);
                    } else {
                        lemma_map_of_value(s, i - 1);
                    }
                }
            }
            assert(map_of(t) =~= map_of(s).insert(kv, vv));
        }
        self.entries = entries;
    }

    /// Takes `key` out of the map, if it is there.
    pub fn remove(&mut self, key: &str)
        ensures
            final(self).map() == old(self).map().remove(key@),
            final(self).wf(),
    {
        proof {
            use_type_invariant(&*self);
        }
        let (p, found) = self.position(key);
        let ghost s = self.listing();
        let ghost kv = key@;
        if !found {
            proof {
                lemma_lt_irreflexive(kv);
                lemma_map_of_dom(s, kv);
                assert(map_of(s) =~= map_of(s).remove(kv));
            }
            return;
        }
        let mut entries: Vec<(String, V)> = Vec::new();
        std::mem::swap(&mut entries, &mut self.entries);
        assert(s == Seq::new(entries@.len(), |i: int| (entries@[i].0@, entries@[i].1.vv())));
        entries.remove(p);
        let ghost t = Seq::new(entries@.len(), |i: int| (entries@[i].0@, entries@[i].1.vv()));
        proof {
            assert(t =~= s.take(p as int) + s.skip(p + 1));
            assert forall|i: int, j: int| 0 <= i < j < t.len() implies seq_lt(
                #[trigger] keys_of(t)[i],
                #[trigger] keys_of(t)[j],
            ) by {
                if i < p && j >= p {
                    assert(seq_lt(keys_of(s)[i], keys_of(s)[j + 1]));
                } else if i >= p {
                    assert(seq_lt(keys_of(s)[i + 1], keys_of(s)[j + 1]));
                } else {
                    assert(seq_lt(keys_of(s)[i], keys_of(s)[j]));
                }
            }
            assert forall|k: Seq<char>| #![auto]
                map_of(t).dom().contains(k) == map_of(s).remove(kv).dom().contains(k) by {
                lemma_map_of_dom(t, k);
                lemma_map_of_dom(s, k);
                if exists|i: int| 0 <= i < s.len() && s[i].0 == k {
                    let i = choose|i: int| 0 <= i < s.len() && s[i].0 == k;
                    if k != kv {
                        if i < p {
                            assert(t[i].0 == k);
                        } else {
                            assert(i != p);
                            assert(t[i - 1].0 == k);
                        }
                    }
                }
                if exists|i: int| 0 <= i < t.len() && t[i].0 == k {
                    let i = choose|i: int| 0 <= i < t.len() && t[i].0 == k;
                    if i < p {
                        assert(s[i].0 == k);
                        lemma_sorted_distinct(s, i, p as int);
                    } else {
                        assert(s[i + 1].0 == k);
                        lemma_sorted_distinct(s, i + 1, p as int);
                    }
                }
            }
            assert forall|k: Seq<char>| #[trigger] map_of(t).dom().contains(k) implies map_of(t)[k]
                == map_of(s).remove(kv)[k] by {
                lemma_map_of_dom(t, k);
                let i = choose|i: int| 0 <= i < t.len() && t[i].0 == k;
                lemma_map_of_value(t, i);
                if i < p {
                    lemma_map_of_value(s, i);
                } else {
                    lemma_map_of_value(s, i + 1);
                }
            }
            assert(map_of(t) =~= map_of(s).remove(kv));
        }
        self.entries = entries;
    }

    /// Whether the two maps hold the same names with the same values.
    pub fn same_as(&self, other: &Self) -> (r: bool)
        ensures
            r == (self.map() == other.map()),
            self.wf(),
            other.wf(),
    {
        proof {
            use_type_invariant(self);
            use_type_invariant(other);
        }
        let ghost s = self.listing();
        let ghost t = other.listing();
        if self.entries.len() != other.entries.len() {
            proof {
                if map_of(s) == map_of(t) {
                    lemma_sorted_unique(s, t);
                }
            }
            return false;
        }
        let mut i: usize = 0;
        while i < self.entries.len()
            invariant
                i <= self.entries@.len(),
                self.entries@.len() == other.entries@.len(),
                s == self.listing(),
                t == other.listing(),
                strictly_sorted(keys_of(s)),
                strictly_sorted(keys_of(t)),
                forall|j: int| 0 <= j < i ==> s[j] == t[j],
            decreases self.entries@.len() - i,
        {
            if self.entries[i].0 != other.entries[i].0 || !self.entries[i].1.same(
                &other.entries[i].1,
            ) {
                proof {
                    assert(s[i as int] != t[i as int]);
                    if map_of(s) == map_of(t) {
                        lemma_sorted_unique(s, t);
                    }
                }
                return false;
            }
            i = i + 1;
        }
        assert(s =~= t);
        true
    }

    pub fn duplicate_map(&self) -> (r: Self)
        ensures
            r.listing() == self.listing(),
            r.map() == self.map(),
            r.wf(),
    {
        proof {
            use_type_invariant(self);
        }
        let mut entries: Vec<(String, V)> = Vec::new();
        let mut i: usize = 0;
        while i < self.entries.len()
            invariant
                i <= self.entries@.len(),
                entries@.len() == i,
                forall|j: int|
                    0 <= j < i ==> #[trigger] entries@[j].0@ == self.entries@[j].0@
                        && entries@[j].1.vv() == self.entries@[j].1.vv(),
            decreases self.entries@.len() - i,
        {
            entries.push((self.entries[i].0.clone(), self.entries[i].1.duplicate()));
            i = i + 1;
        }
        assert(Seq::new(entries@.len(), |j: int| (entries@[j].0@, entries@[j].1.vv()))
            =~= self.listing());
        let r = PathMap { entries };
        r
    }
}

impl<V: MapValue> MapValue for PathMap<V> {
    type V = Map<Seq<char>, V::V>;

    open spec fn vv(&self) -> Map<Seq<char>, V::V> {
        self.map()
    }

    fn same(&self, other: &Self) -> (r: bool) {
        self.same_as(other)
    }

    fn duplicate(&self) -> (r: Self) {
        self.duplicate_map()
    }
}

} // verus!

verus! {

/// A read gives back what the last write of that name wrote, and a write
/// leaves every other name as it was; a removed name reads as absent.
pub proof fn law_read_after_write<V>(m: Map<Seq<char>, V>, key: Seq<char>, value: V, other: Seq<char>)
    ensures
        m.insert(key, value).dom().contains(key),
        m.insert(key, value)[key] == value,
        !m.remove(key).dom().contains(key),
        other != key ==> m.insert(key, value).dom().contains(other) == m.dom().contains(other),
        other != key && m.dom().contains(other) ==> m.insert(key, value)[other] == m[other]
            && m.remove(key)[other] == m[other],
{
}

} // verus!
