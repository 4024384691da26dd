//! A map from text keys to text values, kept as a list of entries in the
//! order in which their keys first arrived. It stands for the header and
//! query-argument tables of requests and responses.
use vstd::prelude::*;

verus! {

/// Keys appear at most once in the list of entries.
pub open spec fn distinct_keys(ps: Seq<(Seq<char>, Seq<char>)>) -> bool {
    forall|i: int, j: int| 0 <= i < j < ps.len() ==> (#[trigger] ps[i]).0 != (#[trigger] ps[j]).0
}

/// The map that inserting the entries one after another builds: a later
/// entry with the same key replaces an earlier one.
pub open spec fn pairs_map(ps: Seq<(Seq<char>, Seq<char>)>) -> Map<Seq<char>, Seq<char>>
    decreases ps.len(),
{
    if ps.len() == 0 {
        Map::empty()
    } else {
        pairs_map(ps.drop_last()).insert(ps.last().0, ps.last().1)
    }
}

/// Dropping the last entry keeps the keys distinct.
pub proof fn lemma_distinct_drop_last(ps: Seq<(Seq<char>, Seq<char>)>)
    requires
        distinct_keys(ps),
        ps.len() > 0,
    ensures
        distinct_keys(ps.drop_last()),
{
    let qs = ps.drop_last();
    assert forall|i: int, j: int| 0 <= i < j < qs.len() implies (#[trigger] qs[i]).0 != (
    #[trigger] qs[j]).0 by {
        assert(qs[i] == ps[i] && qs[j] == ps[j]);
    }
}

/// An entry's key maps to the value of the last entry with that key.
pub proof fn lemma_pairs_map_entry(ps: Seq<(Seq<char>, Seq<char>)>, i: int)
    requires
        distinct_keys(ps),
        0 <= i < ps.len(),
    ensures
        pairs_map(ps).contains_key(ps[i].0),
        pairs_map(ps)[ps[i].0] == ps[i].1,
    decreases ps.len(),
{
    if i < ps.len() - 1 {
        lemma_distinct_drop_last(ps);
        assert(ps.drop_last()[i] == ps[i]);
        lemma_pairs_map_entry(ps.drop_last(), i);
        assert(ps[i].0 != ps[ps.len() - 1].0);
    }
}

/// A key that no entry has is not in the map.
pub proof fn lemma_pairs_map_absent(ps: Seq<(Seq<char>, Seq<char>)>, k: Seq<char>)
    requires
        forall|i: int| 0 <= i < ps.len() ==> (#[trigger] ps[i]).0 != k,
    ensures
        !pairs_map(ps).contains_key(k),
    decreases ps.len(),
{
    if ps.len() > 0 {
        assert forall|i: int| 0 <= i < ps.drop_last().len() implies (
        #[trigger] ps.drop_last()[i]).0 != k by {
            assert(ps.drop_last()[i] == ps[i]);
        }
        lemma_pairs_map_absent(ps.drop_last(), k);
    }
}

/// Replacing the value of an entry is an insert into the map.
pub proof fn lemma_pairs_map_update(
    ps: Seq<(Seq<char>, Seq<char>)>,
    i: int,
    k: Seq<char>,
    v: Seq<char>,
)
    requires
        distinct_keys(ps),
        0 <= i < ps.len(),
        ps[i].0 == k,
    ensures
        pairs_map(ps.update(i, (k, v))) == pairs_map(ps).insert(k, v),
    decreases ps.len(),
{
    let qs = ps.update(i, (k, v));
    if i == ps.len() - 1 {
        assert(qs.drop_last() =~= ps.drop_last());
        assert(pairs_map(qs) =~= pairs_map(ps).insert(k, v));
    } else {
        assert(qs.drop_last() =~= ps.drop_last().update(i, (k, v)));
        lemma_distinct_drop_last(ps);
        lemma_pairs_map_update(ps.drop_last(), i, k, v);
        assert(ps.last().0 != k);
        assert(pairs_map(qs) =~= pairs_map(ps).insert(k, v));
    }
}

/// The map also follows from the pushed entry when the key is new.
pub proof fn lemma_pairs_map_push(ps: Seq<(Seq<char>, Seq<char>)>, k: Seq<char>, v: Seq<char>)
    ensures
        pairs_map(ps.push((k, v))) == pairs_map(ps).insert(k, v),
{
    assert(ps.push((k, v)).drop_last() =~= ps);
}

/// Every entry's key is in the map, and maps to the value of the last entry
/// with that key.
pub proof fn lemma_pairs_map_last(ps: Seq<(Seq<char>, Seq<char>)>, i: int)
    requires
        0 <= i < ps.len(),
    ensures
        pairs_map(ps).contains_key(ps[i].0),
        (forall|j: int| i < j < ps.len() ==> (#[trigger] ps[j]).0 != ps[i].0) ==> pairs_map(
            ps,
        )[ps[i].0] == ps[i].1,
    decreases ps.len(),
{
    if i < ps.len() - 1 {
        lemma_pairs_map_last(ps.drop_last(), i);
        assert(ps.drop_last()[i] == ps[i]);
        if forall|j: int| i < j < ps.len() ==> (#[trigger] ps[j]).0 != ps[i].0 {
            assert(ps[ps.len() - 1].0 != ps[i].0);
            assert forall|j: int| i < j < ps.drop_last().len() implies (
            #[trigger] ps.drop_last()[j]).0 != ps.drop_last()[i].0 by {
                assert(ps.drop_last()[j] == ps[j]);
            }
        }
    }
}

/// The map holds no key that no entry has.
pub proof fn lemma_pairs_map_keys(ps: Seq<(Seq<char>, Seq<char>)>, k: Seq<char>)
    requires
        pairs_map(ps).contains_key(k),
    ensures
        exists|i: int| 0 <= i < ps.len() && (#[trigger] ps[i]).0 == k,
    decreases ps.len(),
{
    if ps.len() > 0 && ps.last().0 != k {
        lemma_pairs_map_keys(ps.drop_last(), k);
        let i = choose|i: int| 0 <= i < ps.drop_last().len() && (#[trigger] ps.drop_last()[i]).0 == k;
        assert(ps[i] == ps.drop_last()[i]);
    }
}

/// A text-to-text map whose entries keep the order in which their keys first
/// arrived.
pub struct StringMap {
    entries: Vec<(String, String)>,
}

impl StringMap {
    /// The entries as text, in order.
    pub closed spec fn pairs(&self) -> Seq<(Seq<char>, Seq<char>)> {
        self.entries@.map_values(|e: (String, String)| (e.0@, e.1@))
    }

    #[verifier::type_invariant]
    closed spec fn keys_once(self) -> bool {
        distinct_keys(self.pairs())
    }

    /// An empty map.
    pub fn new() -> (m: Self)
        ensures
            m@ == Map::<Seq<char>, Seq<char>>::empty(),
            m.pairs() == Seq::<(Seq<char>, Seq<char>)>::empty(),
    {
        let m = StringMap { entries: Vec::new() };
        assert(m.pairs() =~= Seq::<(Seq<char>, Seq<char>)>::empty());
        m
    }

    /// The number of entries (of distinct keys).
    pub fn len(&self) -> (n: usize)
        ensures
            n == self.pairs().len(),
            n == self@.len(),
    {
        proof {
            use_type_invariant(self);
            self.lemma_len();
        }
        self.entries.len()
    }

    /// The number of keys is the number of entries.
    proof fn lemma_len(&self)
        requires
            distinct_keys(self.pairs()),
        ensures
            self@.len() == self.pairs().len(),
            self@.dom().finite(),
    {
        lemma_pairs_map_len(self.pairs());
    }

    /// The index of the entry with key `key`, if any.
    fn index_of(&self, key: &String) -> (r: Option<usize>)
        ensures
            match r {
                Some(i) => i < self.pairs().len() && self.pairs()[i as int].0 == key@,
                None => forall|i: int|
                    0 <= i < self.pairs().len() ==> (#[trigger] self.pairs()[i]).0 != key@,
            },
    {
        let mut i: usize = 0;
        while i < self.entries.len()
            invariant
                i <= self.entries@.len(),
                forall|j: int| 0 <= j < i ==> (#[trigger] self.pairs()[j]).0 != key@,
            decreases self.entries@.len() - i,
        {
            if self.entries[i].0 == *key {
                return Some(i);
            }
            i += 1;
        }
        None
    }

    /// The value stored under `key`.
    pub fn get(&self, key: &str) -> (r: Option<&String>)
        ensures
            match r {
                Some(v) => self@.contains_key(key@) && v@ == self@[key@],
                None => !self@.contains_key(key@),
            },
    {
        proof {
            use_type_invariant(self);
        }
        let k = key.to_owned();
        match self.index_of(&k) {
            Some(i) => {
                proof {
                    lemma_pairs_map_entry(self.pairs(), i as int);
                }
                Some(&self.entries[i].1)
            },
            None => {
                proof {
                    lemma_pairs_map_absent(self.pairs(), key@);
                }
                None
            },
        }
    }

    /// Whether some entry has key `key`.
    pub fn contains_key(&self, key: &str) -> (b: bool)
        ensures
            b == self@.contains_key(key@),
    {
        match self.get(key) {
            Some(_) => true,
            None => false,
        }
    }

    /// Stores `value` under `key`: an entry with that key keeps its place and
    /// takes the new value, a new key goes to the end.
    pub fn insert(&mut self, key: String, value: String)
        ensures
            final(self)@ == old(self)@.insert(key@, value@),
            old(self)@.contains_key(key@) ==> exists|i: int|
                0 <= i < old(self).pairs().len() && old(self).pairs()[i].0 == key@
                    && final(self).pairs() == old(self).pairs().update(i, (key@, value@)),
            !old(self)@.contains_key(key@) ==> final(self).pairs() == old(self).pairs().push(
                (key@, value@),
            ),
    {
        proof {
            use_type_invariant(&*self);
        }
        let ghost ps = self.pairs();
        let found = self.index_of(&key);
        let mut es: Vec<(String, String)> = Vec::new();
        std::mem::swap(&mut es, &mut self.entries);
        assert(es@.map_values(|e: (String, String)| (e.0@, e.1@)) == ps);
        match found {
            Some(i) => {
                proof {
                    lemma_pairs_map_entry(ps, i as int);
                    lemma_pairs_map_update(ps, i as int, key@, value@);
                }
                es.set(i, (key, value));
                assert(es@.map_values(|e: (String, String)| (e.0@, e.1@)) =~= ps.update(
                    i as int,
                    (key@, value@),
                ));
                self.entries = es;
            },
            None => {
                proof {
                    lemma_pairs_map_absent(ps, key@);
                    lemma_pairs_map_push(ps, key@, value@);
                }
                es.push((key, value));
                assert(es@.map_values(|e: (String, String)| (e.0@, e.1@)) =~= ps.push(
                    (key@, value@),
                ));
                self.entries = es;
            },
        }
    }

    /// The key and value of the entry at position `i`.
    pub fn entry(&self, i: usize) -> (r: (&String, &String))
        requires
            i < self.pairs().len(),
        ensures
            (r.0@, r.1@) == self.pairs()[i as int],
    {
        (&self.entries[i].0, &self.entries[i].1)
    }
}

/// The map has as many keys as there are entries, when no key repeats.
pub proof fn lemma_pairs_map_len(ps: Seq<(Seq<char>, Seq<char>)>)
    requires
        distinct_keys(ps),
    ensures
        pairs_map(ps).dom().finite(),
        pairs_map(ps).len() == ps.len(),
    decreases ps.len(),
{
    if ps.len() > 0 {
        let qs = ps.drop_last();
        lemma_distinct_drop_last(ps);
        lemma_pairs_map_len(qs);
        assert forall|i: int| 0 <= i < qs.len() implies (#[trigger] qs[i]).0 != ps.last().0 by {
            assert(qs[i] == ps[i]);
        }
        lemma_pairs_map_absent(qs, ps.last().0);
    }
}

impl View for StringMap {
    type V = Map<Seq<char>, Seq<char>>;

    open spec fn view(&self) -> Map<Seq<char>, Seq<char>> {
        pairs_map(self.pairs())
    }
}

} // verus!
