//! Collections keyed by a name: an association list seen as a map from text to
//! values, and the set of names built on it.
use crate::text::{same_text, texts};
use vstd::prelude::*;

verus! {

/// The map that a list of pairs stands for: of two pairs with one name the
/// later one counts.
pub open spec fn pairs_map<V>(s: Seq<(String, V)>) -> Map<Seq<char>, V>
    decreases s.len(),
{
    if s.len() == 0 {
        Map::empty()
    } else {
        pairs_map(s.drop_last()).insert(s.last().0@, s.last().1)
    }
}

/// One more pair is one more insertion.
pub proof fn lemma_pairs_take<V>(s: Seq<(String, V)>, n: int)
    requires
        0 <= n < s.len(),
    ensures
        pairs_map(s.take(n + 1)) == pairs_map(s.take(n)).insert(s[n].0@, s[n].1),
{
    assert(s.take(n + 1).drop_last() =~= s.take(n));
}

/// A name is in the map exactly when some pair carries it; the last such pair
/// gives the value.
proof fn lemma_pairs_lookup<V>(s: Seq<(String, V)>, i: int, name: Seq<char>)
    requires
        0 <= i < s.len(),
        s[i].0@ == name,
        forall|j: int| i < j < s.len() ==> (#[trigger] s[j]).0@ != name,
    ensures
        pairs_map(s).contains_key(name),
        pairs_map(s)[name] == s[i].1,
    decreases s.len(),
{
    if i < s.len() - 1 {
        assert(s.last().0@ != name);
        assert forall|j: int| i < j < s.drop_last().len() implies (#[trigger] s.drop_last()[j]).0@
            != name by {
            assert(s[j].0@ != name);
        }
        lemma_pairs_lookup(s.drop_last(), i, name);
    }
}

proof fn lemma_pairs_absent<V>(s: Seq<(String, V)>, name: Seq<char>)
    requires
        forall|j: int| 0 <= j < s.len() ==> (#[trigger] s[j]).0@ != name,
    ensures
        !pairs_map(s).contains_key(name),
    decreases s.len(),
{
    if s.len() > 0 {
        assert(s.last().0@ != name);
        assert forall|j: int| 0 <= j < s.drop_last().len() implies (#[trigger] s.drop_last()[j]).0@
            != name by {
            assert(s[j].0@ != name);
        }
        lemma_pairs_absent(s.drop_last(), name);
    }
}

/// Where no name occurs twice, the map holds every pair.
pub proof fn lemma_pairs_entry<V>(s: Seq<(String, V)>, i: int)
    requires
        0 <= i < s.len(),
        distinct_names(s),
    ensures
        pairs_map(s).contains_key(s[i].0@),
        pairs_map(s)[s[i].0@] == s[i].1,
{
    assert forall|j: int| i < j < s.len() implies (#[trigger] s[j]).0@ != s[i].0@ by {}
    lemma_pairs_lookup(s, i, s[i].0@);
}

/// A list of pairs stands for a finite map.
pub proof fn lemma_pairs_finite<V>(s: Seq<(String, V)>)
    ensures
        pairs_map(s).dom().finite(),
    decreases s.len(),
{
    if s.len() > 0 {
        lemma_pairs_finite(s.drop_last());
    }
}

/// A name that the map holds is carried by some pair.
pub proof fn lemma_pairs_key<V>(s: Seq<(String, V)>, name: Seq<char>)
    requires
        pairs_map(s).contains_key(name),
    ensures
        exists|i: int| 0 <= i < s.len() && (#[trigger] s[i]).0@ == name,
    decreases s.len(),
{
    if s.last().0@ != name {
        lemma_pairs_key(s.drop_last(), name);
        let i = choose|i: int| 0 <= i < s.drop_last().len() && (#[trigger] s.drop_last()[i]).0@ == name;
        assert(s[i].0@ == name);
    } else {
        assert(s[s.len() - 1].0@ == name);
    }
}

/// No name occurs in two pairs.
pub open spec fn distinct_names<V>(s: Seq<(String, V)>) -> bool {
    forall|i: int, j: int|
        0 <= i < j < s.len() ==> (#[trigger] s[i]).0@ != (#[trigger] s[j]).0@
}

/// A map from names to values.
#[derive(Debug)]
pub struct NameMap<V> {
    entries: Vec<(String, V)>,
}

impl<V> View for NameMap<V> {
    type V = Map<Seq<char>, V>;

    closed spec fn view(&self) -> Map<Seq<char>, V> {
        pairs_map(self.entries@)
    }
}

impl<V> NameMap<V> {
    #[verifier::type_invariant]
    spec fn each_name_once(self) -> bool {
        distinct_names(self.entries@)
    }

    /// The empty map.
    pub fn new() -> (m: Self)
        ensures
            m@ == Map::<Seq<char>, V>::empty(),
    {
        NameMap { entries: Vec::new() }
    }

    fn position(&self, name: &str) -> (r: Option<usize>)
        ensures
            match r {
                Some(i) => {
                    &&& i < self.entries@.len()
                    &&& self.entries@[i as int].0@ == name@
                    &&& forall|j: int| i < j < self.entries@.len() ==> (#[trigger] self.entries@[j]).0@ != name@
                },
                None => forall|j: int|
                    0 <= j < self.entries@.len() ==> (#[trigger] self.entries@[j]).0@ != name@,
            },
    {
        let mut n: usize = self.entries.len();
        while n > 0
            invariant
                n <= self.entries@.len(),
                forall|j: int| n <= j < self.entries@.len() ==> (#[trigger] self.entries@[j]).0@ != name@,
            decreases n,
        {
            n -= 1;
            if same_text(self.entries[n].0.as_str(), name) {
                return Some(n);
            }
        }
        None
    }

    /// The value under `name`.
    pub fn get(&self, name: &str) -> (r: Option<&V>)
        ensures
            match r {
                Some(v) => self@.contains_key(name@) && *v == self@[name@],
                None => !self@.contains_key(name@),
            },
    {
        match self.position(name) {
            Some(i) => {
                proof {
                    lemma_pairs_lookup(self.entries@, i as int, name@);
                }
                Some(&self.entries[i].1)
            },
            None => {
                proof {
                    lemma_pairs_absent(self.entries@, name@);
                }
                None
            },
        }
    }

    /// Whether `name` has a value.
    pub fn contains(&self, name: &str) -> (r: bool)
        ensures
            r == self@.contains_key(name@),
    {
        self.get(name).is_some()
    }

    /// Remove `name`; its value comes back.
    pub fn remove(&mut self, name: &str) -> (r: Option<V>)
        ensures
            final(self)@ == old(self)@.remove(name@),
            match r {
                Some(v) => old(self)@.contains_key(name@) && v == old(self)@[name@],
                None => !old(self)@.contains_key(name@),
            },
    {
        let (found, kept): (Option<V>, Vec<(String, V)>) = self.take_out(name);
        self.entries = kept;
        found
    }

    /// Empty the map, handing out the value under `name` and the other pairs.
    fn take_out(&mut self, name: &str) -> (r: (Option<V>, Vec<(String, V)>))
        ensures
            final(self)@ == Map::<Seq<char>, V>::empty(),
            pairs_map(r.1@) == old(self)@.remove(name@),
            distinct_names(r.1@),
            forall|i: int| 0 <= i < r.1@.len() ==> (#[trigger] r.1@[i]).0@ != name@,
            match r.0 {
                Some(v) => old(self)@.contains_key(name@) && v == old(self)@[name@],
                None => !old(self)@.contains_key(name@),
            },
    {
        proof {
            use_type_invariant(&*self);
        }
        let ghost before = self.entries@;
        let mut kept: Vec<(String, V)> = Vec::new();
        let mut found: Option<V> = None;
        let mut rest: Vec<(String, V)> = Vec::new();
        std::mem::swap(&mut rest, &mut self.entries);
        let ghost mut done: int = 0;
        proof {
            assert(before.take(0) =~= Seq::empty());
            assert(rest@ =~= before.skip(0));
            assert(pairs_map(kept@) =~= pairs_map(before.take(0)).remove(name@));
        }
        while rest.len() > 0
            invariant
                0 <= done <= before.len(),
                rest@ == before.skip(done),
                distinct_names(before),
                distinct_names(kept@),
                forall|i: int|
                    0 <= i < kept@.len() ==> exists|j: int|
                        0 <= j < done && (#[trigger] before[j]).0@ == (#[trigger] kept@[i]).0@,
                forall|i: int| 0 <= i < kept@.len() ==> (#[trigger] kept@[i]).0@ != name@,
                pairs_map(kept@) == pairs_map(before.take(done)).remove(name@),
                match found {
                    Some(v) => pairs_map(before.take(done)).contains_key(name@) && v == pairs_map(
                        before.take(done),
                    )[name@],
                    None => !pairs_map(before.take(done)).contains_key(name@),
                },
            decreases before.len() - done,
        {
            let pair: (String, V) = rest.remove(0);
            proof {
                assert(pair == before[done]);
                assert(rest@ =~= before.skip(done + 1));
                lemma_pairs_take(before, done);
            }
            if same_text(pair.0.as_str(), name) {
                found = Some(pair.1);
                proof {
                    assert(pairs_map(kept@) =~= pairs_map(before.take(done + 1)).remove(name@));
                }
            } else {
                let ghost old_kept = kept@;
                kept.push(pair);
                proof {
                    assert(kept@.drop_last() =~= old_kept);
                    assert forall|i: int| 0 <= i < kept@.len() implies exists|j: int|
                        0 <= j < done + 1 && (#[trigger] before[j]).0@ == (#[trigger] kept@[i]).0@ by {
                        if i < old_kept.len() {
                            assert(kept@[i] == old_kept[i]);
                            let j = choose|j: int|
                                0 <= j < done && (#[trigger] before[j]).0@ == old_kept[i].0@;
                            assert(before[j].0@ == kept@[i].0@);
                        } else {
                            assert(before[done].0@ == kept@[i].0@);
                        }
                    }
                    assert forall|i: int, j: int| 0 <= i < j < kept@.len() implies (
                    #[trigger] kept@[i]).0@ != (#[trigger] kept@[j]).0@ by {
                        assert(kept@[i] == old_kept[i]);
                        if j < old_kept.len() {
                            assert(kept@[j] == old_kept[j]);
                        } else {
                            let k = choose|k: int|
                                0 <= k < done && (#[trigger] before[k]).0@ == old_kept[i].0@;
                            assert(before[k].0@ != before[done].0@);
                        }
                    }
                    assert(pairs_map(kept@) =~= pairs_map(before.take(done + 1)).remove(name@));
                }
            }
            proof {
                done = done + 1;
            }
        }
        proof {
            assert(before.take(done) =~= before);
        }
        (found, kept)
    }

    /// Put `value` under `name`; the value it replaces comes back.
    pub fn insert(&mut self, name: &str, value: V) -> (r: Option<V>)
        ensures
            final(self)@ == old(self)@.insert(name@, value),
            match r {
                Some(v) => old(self)@.contains_key(name@) && v == old(self)@[name@],
                None => !old(self)@.contains_key(name@),
            },
    {
        let (replaced, mut kept): (Option<V>, Vec<(String, V)>) = self.take_out(name);
        let ghost mid = kept@;
        kept.push((name.to_owned(), value));
        proof {
            assert(kept@.drop_last() =~= mid);
            assert forall|i: int, j: int| 0 <= i < j < kept@.len() implies (#[trigger] kept@[i]).0@
                != (#[trigger] kept@[j]).0@ by {
                assert(kept@[i] == mid[i]);
                if j < mid.len() {
                    assert(kept@[j] == mid[j]);
                }
            }
            assert(pairs_map(kept@) =~= old(self)@.insert(name@, value));
        }
        self.entries = kept;
        replaced
    }

    /// Every name, once.
    pub fn keys(&self) -> (r: Vec<String>)
        ensures
            texts(r@).no_duplicates(),
            forall|k: Seq<char>| #[trigger] texts(r@).contains(k) <==> self@.contains_key(k),
    {
        proof {
            use_type_invariant(&*self);
        }
        let mut r: Vec<String> = Vec::new();
        let mut i: usize = 0;
        while i < self.entries.len()
            invariant
                i <= self.entries@.len(),
                r@.len() == i,
                forall|j: int| 0 <= j < i ==> #[trigger] texts(r@)[j] == self.entries@[j].0@,
            decreases self.entries@.len() - i,
        {
            let ghost before = r@;
            r.push(self.entries[i].0.clone());
            proof {
                assert(texts(r@) =~= texts(before).push(self.entries@[i as int].0@));
            }
            i += 1;
        }
        proof {
            assert forall|k: Seq<char>| #[trigger]
                texts(r@).contains(k) <==> self@.contains_key(k) by {
                if texts(r@).contains(k) {
                    let j = choose|j: int| 0 <= j < texts(r@).len() && texts(r@)[j] == k;
                    lemma_pairs_entry(self.entries@, j);
                }
                if self@.contains_key(k) {
                    lemma_pairs_key(self.entries@, k);
                    let j = choose|j: int|
                        0 <= j < self.entries@.len() && (#[trigger] self.entries@[j]).0@ == k;
                    assert(texts(r@)[j] == k);
                }
            }
        }
        r
    }

    /// Empty the map; every name and value comes back, each name once.
    pub fn drain(&mut self) -> (r: Vec<(String, V)>)
        ensures
            final(self)@ == Map::<Seq<char>, V>::empty(),
            pairs_map(r@) == old(self)@,
            distinct_names(r@),
    {
        proof {
            use_type_invariant(&*self);
        }
        let mut out: Vec<(String, V)> = Vec::new();
        std::mem::swap(&mut out, &mut self.entries);
        out
    }
}

} // verus!
