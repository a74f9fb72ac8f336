//! A map from names to values that remembers the order in which names were
//! first inserted.
use vstd::prelude::*;
use crate::text::chars_of;
use vstd::pervasive::VecAdditionalExecFns;

verus! {

/// The map that a sequence of (name, value) pairs describes; a later pair for
/// the same name overrides an earlier one.
pub open spec fn map_of<W>(ps: Seq<(Seq<char>, W)>) -> Map<Seq<char>, W>
    decreases ps.len(),
{
    if ps.len() == 0 {
        Map::empty()
    } else {
        map_of(ps.drop_last()).insert(ps.last().0, ps.last().1)
    }
}

/// No name occurs twice among the pairs.
pub open spec fn distinct_names<W>(ps: Seq<(Seq<char>, W)>) -> bool {
    forall|i: int, j: int| 0 <= i < j < ps.len() ==> (#[trigger] ps[i]).0 != (#[trigger] ps[j]).0
}

/// The names of the pairs, in order.
pub open spec fn names_of<W>(ps: Seq<(Seq<char>, W)>) -> Seq<Seq<char>> {
    ps.map_values(|p: (Seq<char>, W)| p.0)
}

pub proof fn lemma_map_of_dom<W>(ps: Seq<(Seq<char>, W)>)
    ensures
        forall|k: Seq<char>|
            #[trigger] map_of(ps).contains_key(k) <==> exists|i: int|
                0 <= i < ps.len() && (#[trigger] ps[i]).0 == k,
        map_of(ps).dom().finite(),
    decreases ps.len(),
{
    if ps.len() > 0 {
        lemma_map_of_dom(ps.drop_last());
        assert forall|k: Seq<char>|
            #[trigger] map_of(ps).contains_key(k) <==> exists|i: int|
                0 <= i < ps.len() && (#[trigger] ps[i]).0 == k by {
            if map_of(ps).contains_key(k) {
                if k == ps.last().0 {
                    assert(ps[ps.len() - 1].0 == k);
                } else {
                    let i = choose|i: int| 0 <= i < ps.drop_last().len() && (#[trigger] ps.drop_last()[i]).0 == k;
                    assert(ps[i].0 == k);
                }
            }
            if exists|i: int| 0 <= i < ps.len() && (#[trigger] ps[i]).0 == k {
                let i = choose|i: int| 0 <= i < ps.len() && (#[trigger] ps[i]).0 == k;
                if i < ps.len() - 1 {
                    assert(ps.drop_last()[i].0 == k);
                }
            }
        }
    }
}

pub proof fn lemma_map_of_value<W>(ps: Seq<(Seq<char>, W)>, i: int)
    requires
        distinct_names(ps),
        0 <= i < ps.len(),
    ensures
        map_of(ps).contains_key(ps[i].0),
        map_of(ps)[ps[i].0] == ps[i].1,
    decreases ps.len(),
{
    if i < ps.len() - 1 {
        lemma_map_of_value(ps.drop_last(), i);
        assert(ps.drop_last()[i] == ps[i]);
        assert(ps[i].0 != ps[ps.len() - 1].0);
    }
}

pub proof fn lemma_map_of_len<W>(ps: Seq<(Seq<char>, W)>)
    requires
        distinct_names(ps),
    ensures
        map_of(ps).dom().len() == ps.len(),
    decreases ps.len(),
{
    if ps.len() > 0 {
        lemma_map_of_len(ps.drop_last());
        lemma_map_of_dom(ps.drop_last());
        assert(!map_of(ps.drop_last()).contains_key(ps.last().0)) by {
            if map_of(ps.drop_last()).contains_key(ps.last().0) {
                let i = choose|i: int|
                    0 <= i < ps.drop_last().len() && (#[trigger] ps.drop_last()[i]).0 == ps.last().0;
                assert(ps[i].0 == ps[ps.len() - 1].0);
            }
        }
    }
}

pub proof fn lemma_map_of_update<W>(ps: Seq<(Seq<char>, W)>, i: int, w: W)
    requires
        distinct_names(ps),
        0 <= i < ps.len(),
    ensures
        map_of(ps.update(i, (ps[i].0, w))) =~= map_of(ps).insert(ps[i].0, w),
        distinct_names(ps.update(i, (ps[i].0, w))),
    decreases ps.len(),
{
    let qs = ps.update(i, (ps[i].0, w));
    if i == ps.len() - 1 {
        assert(qs.drop_last() =~= ps.drop_last());
    } else {
        lemma_map_of_update(ps.drop_last(), i, w);
        assert(qs.drop_last() =~= ps.drop_last().update(i, (ps[i].0, w)));
        assert(ps[i].0 != ps.last().0);
    }
}

/// A map from names to values, kept in first-insertion order.
#[derive(Debug, PartialEq, Eq)]
pub struct NameMap<V: View> {
    entries: Vec<(String, V)>,
}

impl<V: View> View for NameMap<V> {
    type V = Map<Seq<char>, V::V>;

    closed spec fn view(&self) -> Map<Seq<char>, V::V> {
        map_of(self.pairs())
    }
}

impl<V: View> NameMap<V> {
    /// The (name, value) pairs in insertion order, taken by their views.
    pub closed spec fn pairs(&self) -> Seq<(Seq<char>, V::V)> {
        self.entries@.map_values(|e: (String, V)| (e.0@, e.1@))
    }

    #[verifier::type_invariant]
    closed spec fn inv(&self) -> bool {
        distinct_names(self.pairs())
    }

    /// The value stored at position `i`.
    pub closed spec fn value(&self, i: int) -> V {
        self.entries@[i].1
    }

    /// The names in insertion order.
    pub open spec fn names(&self) -> Seq<Seq<char>> {
        names_of(self.pairs())
    }

    /// A name is in the map exactly when it is one of the pairs' names.
    pub proof fn lemma_dom(m: &Self)
        ensures
            forall|k: Seq<char>|
                #[trigger] m@.contains_key(k) <==> exists|i: int|
                    0 <= i < m.pairs().len() && (#[trigger] m.pairs()[i]).0 == k,
    {
        lemma_map_of_dom(m.pairs());
    }

    /// Every map has finitely many names.
    pub proof fn lemma_finite(m: &Self)
        ensures
            m@.dom().finite(),
    {
        lemma_map_of_dom(m.pairs());
    }

    /// An empty map.
    pub fn new() -> (m: Self)
        ensures
            m@ == Map::<Seq<char>, V::V>::empty(),
            m.pairs() == Seq::<(Seq<char>, V::V)>::empty(),
    {
        let m = NameMap { entries: Vec::new() };
        assert(m.pairs() =~= Seq::<(Seq<char>, V::V)>::empty());
        m
    }

    /// The number of names.
    pub fn len(&self) -> (n: usize)
        ensures
            n == self.pairs().len(),
            n == self@.dom().len(),
    {
        proof {
            use_type_invariant(self);
            lemma_map_of_len(self.pairs());
        }
        self.entries.len()
    }

    /// There are no names.
    pub fn is_empty(&self) -> (b: bool)
        ensures
            b == (self.pairs().len() == 0),
            b == (self@.dom().len() == 0),
    {
        self.len() == 0
    }

    /// The position of `key` among the names, if it is one of them.
    pub fn position(&self, key: &str) -> (r: Option<usize>)
        ensures
            match r {
                Some(i) => i < self.pairs().len() && self.pairs()[i as int].0 == key@,
                None => !self@.contains_key(key@),
            },
            r is Some <==> self@.contains_key(key@),
    {
        proof {
            use_type_invariant(self);
            lemma_map_of_dom(self.pairs());
        }
        let kv = chars_of(key);
        let mut i: usize = 0;
        while i < self.entries.len()
            invariant
                i <= self.entries.len(),
                kv@ == key@,
                distinct_names(self.pairs()),
                forall|j: int| 0 <= j < i ==> (#[trigger] self.pairs()[j]).0 != key@,
            decreases self.entries.len() - i,
        {
            let ev = chars_of(self.entries[i].0.as_str());
            if crate::text::occurs_at_vec(&ev, &kv, 0) && ev.len() == kv.len() {
                assert(ev@ =~= ev@.subrange(0, kv@.len() as int));
                assert(self.pairs()[i as int].0 == ev@);
                proof {
                    lemma_map_of_value(self.pairs(), i as int);
                }
                return Some(i);
            }
            assert(self.pairs()[i as int].0 == ev@);
            assert(ev@ != kv@) by {
                if ev@ == kv@ {
                    assert(ev@.subrange(0, kv@.len() as int) =~= kv@);
                }
            }
            i = i + 1;
        }
        None
    }

    /// The value stored under `key`.
    pub fn get(&self, key: &str) -> (r: Option<&V>)
        ensures
            match r {
                Some(v) => self@.contains_key(key@) && v@ == self@[key@],
                None => !self@.contains_key(key@),
            },
    {
        match self.position(key) {
            Some(i) => {
                proof {
                    use_type_invariant(self);
                    lemma_map_of_value(self.pairs(), i as int);
                }
                Some(&self.entries[i].1)
            },
            None => None,
        }
    }

    /// `key` is one of the names.
    pub fn contains_key(&self, key: &str) -> (b: bool)
        ensures
            b == self@.contains_key(key@),
    {
        self.position(key).is_some()
    }

    /// The name at position `i`.
    pub fn name_at(&self, i: usize) -> (r: &String)
        requires
            i < self.pairs().len(),
        ensures
            r@ == self.pairs()[i as int].0,
            self@.contains_key(r@),
            self@[r@] == self.pairs()[i as int].1,
            forall|j: int|
                0 <= j < self.pairs().len() && j != i ==> (#[trigger] self.pairs()[j]).0 != r@,
    {
        proof {
            use_type_invariant(self);
            lemma_map_of_value(self.pairs(), i as int);
        }
        &self.entries[i].0
    }

    /// The value at position `i`.
    pub fn value_at(&self, i: usize) -> (r: &V)
        requires
            i < self.pairs().len(),
        ensures
            r@ == self.pairs()[i as int].1,
            *r == self.value(i as int),
            self@.contains_key(self.pairs()[i as int].0),
            self@[self.pairs()[i as int].0] == r@,
    {
        proof {
            use_type_invariant(self);
            lemma_map_of_value(self.pairs(), i as int);
        }
        &self.entries[i].1
    }

    /// Stores `value` under `key`. A name already present keeps its position;
    /// a new name goes last. Returns the value that was replaced, if any.
    pub fn insert(&mut self, key: String, value: V) -> (r: Option<V>)
        ensures
            final(self)@ == old(self)@.insert(key@, value@),
            match r {
                Some(v) => old(self)@.contains_key(key@) && v@ == old(self)@[key@],
                None => !old(self)@.contains_key(key@),
            },
            old(self)@.contains_key(key@) ==> exists|i: int|
                0 <= i < old(self).pairs().len() && old(self).pairs()[i].0 == key@
                    && final(self).pairs() == old(self).pairs().update(i, (key@, value@)),
            !old(self)@.contains_key(key@) ==> final(self).pairs() == old(self).pairs().push(
                (key@, value@),
            ),
    {
        proof {
            use_type_invariant(&*self);
            lemma_map_of_dom(self.pairs());
        }
        match self.position(key.as_str()) {
            Some(i) => {
                let ghost old_pairs = self.pairs();
                proof {
                    lemma_map_of_value(old_pairs, i as int);
                    lemma_map_of_update(old_pairs, i as int, value@);
                }
                let mut entries: Vec<(String, V)> = Vec::new();
                std::mem::swap(&mut entries, &mut self.entries);
                let mut slot = (key, value);
                entries.set_and_swap(i, &mut slot);
                let (_, old_value) = slot;
                assert(entries@.map_values(|e: (String, V)| (e.0@, e.1@)) =~= old_pairs.update(
                    i as int,
                    (old_pairs[i as int].0, value@),
                ));
                self.entries = entries;
                Some(old_value)
            },
            None => {
                let ghost old_pairs = self.pairs();
                proof {
                    lemma_map_of_dom(old_pairs);
                }
                let mut entries: Vec<(String, V)> = Vec::new();
                std::mem::swap(&mut entries, &mut self.entries);
                entries.push((key, value));
                assert(old_pairs.push((key@, value@)).drop_last() =~= old_pairs);
                assert(entries@.map_values(|e: (String, V)| (e.0@, e.1@)) =~= old_pairs.push(
                    (key@, value@),
                ));
                assert(distinct_names(old_pairs.push((key@, value@)))) by {
                    assert forall|a: int, b: int|
                        0 <= a < b < old_pairs.push((key@, value@)).len() implies (#[trigger] old_pairs.push(
                        (key@, value@),
                    )[a]).0 != (#[trigger] old_pairs.push((key@, value@))[b]).0 by {
                        if b == old_pairs.len() {
                            assert(old_pairs[a].0 != key@);
                        }
                    }
                }
                self.entries = entries;
                None
            },
        }
    }

    /// The names in insertion order.
    pub fn keys(&self) -> (r: Vec<String>)
        ensures
            crate::text::views(r@) == self.names(),
    {
        let mut r: Vec<String> = Vec::new();
        let mut i: usize = 0;
        while i < self.entries.len()
            invariant
                i <= self.entries.len(),
                r@.len() == i,
                self.names().len() == self.entries@.len(),
                crate::text::views(r@) == self.names().take(i as int),
            decreases self.entries.len() - i,
        {
            let name = self.entries[i].0.clone();
            assert(self.names()[i as int] == self.entries@[i as int].0@);
            assert(name@ == self.names()[i as int]);
            let ghost old_r = r@;
            r.push(name);
            assert(r@ == old_r.push(name));
            assert(crate::text::views(r@).len() == i + 1);
            assert forall|j: int| 0 <= j < i + 1 implies crate::text::views(r@)[j] == self.names().take(i + 1)[j] by {
                if j < i {
                    assert(crate::text::views(old_r)[j] == self.names().take(i as int)[j]);
                }
            }
            assert(crate::text::views(r@) =~= self.names().take(i + 1));
            i = i + 1;
        }
        assert(self.names().take(self.entries.len() as int) =~= self.names());
        r
    }
}

impl<V: View + Clone> Clone for NameMap<V> {
    fn clone(&self) -> (r: Self)
        ensures
            r.names() == self.names(),
    {
        let mut entries: Vec<(String, V)> = Vec::new();
        let mut i: usize = 0;
        proof {
            use_type_invariant(self);
        }
        while i < self.entries.len()
            invariant
                i <= self.entries.len(),
                distinct_names(self.pairs()),
                entries@.len() == i,
                forall|j: int| 0 <= j < i ==> (#[trigger] entries@[j]).0@ == self.entries@[j].0@,
            decreases self.entries.len() - i,
        {
            let name = self.entries[i].0.clone();
            let value = self.entries[i].1.clone();
            entries.push((name, value));
            i = i + 1;
        }
        let ghost ps = entries@.map_values(|e: (String, V)| (e.0@, e.1@));
        assert(distinct_names(ps)) by {
            assert forall|a: int, b: int| 0 <= a < b < ps.len() implies (#[trigger] ps[a]).0
                != (#[trigger] ps[b]).0 by {
                assert(ps[a].0 == self.pairs()[a].0);
                assert(ps[b].0 == self.pairs()[b].0);
            }
        }
        let r = NameMap { entries };
        assert(r.names() =~= self.names());
        r
    }
}

} // verus!
