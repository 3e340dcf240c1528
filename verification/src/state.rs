//! The values that finished steps leave for the steps after them.
use crate::dependency::{entries_view, Dependency, DependencyView, Entry};
use crate::text::rc_clone;
use std::rc::Rc;
use vstd::prelude::*;

verus! {

/// What a [`DependencyMap`] answers: of which keys it says that it contains
/// them, and which value it hands out for which key.
pub struct Answers {
    /// The keys of which `contains_key` says `true`.
    pub has: Set<DependencyView>,
    /// The value that `get` hands out for each key it knows.
    pub values: Map<DependencyView, Seq<char>>,
}

/// Map data structure where keys are [`Dependency`] and values are
/// reference-counted [`String`].
///
/// Asking changes no answer. The map keeps a list of the keys that were asked
/// of `get`, so that what a step reads can be compared with what the steps
/// before it provide.
pub trait DependencyMap {
    /// What holds of every map of this kind.
    spec fn wf(&self) -> bool;

    /// What the map answers.
    spec fn answers(&self) -> Answers;

    /// The keys that `get` was asked for, in the order of the calls.
    spec fn log(&self) -> Seq<DependencyView>;

    /// Returns a [`Rc`] to the value corresponding to the key, or the key
    /// itself where the map has no value for it.
    ///
    /// Calling `get` while evaluating a pending step implies that the step
    /// has a strict dependency on `k`.
    fn get(&mut self, k: Dependency) -> (r: Result<Rc<String>, Dependency>)
        requires
            old(self).wf(),
        ensures
            final(self).wf(),
            final(self).answers() == old(self).answers(),
            final(self).log() == old(self).log().push(k@),
            match r {
                Ok(value) => old(self).answers().values.dom().contains(k@) && value@ == old(
                    self,
                ).answers().values[k@],
                Err(missing) => !old(self).answers().values.dom().contains(k@) && missing@ == k@,
            },
    ;

    /// Returns `true` if the map contains a value for the specified key.
    ///
    /// Calling `contains_key` while evaluating a pending step implies that
    /// the step may be redundant if `true` is returned.
    fn contains_key(&self, k: &Dependency) -> (b: bool)
        requires
            self.wf(),
        ensures
            b == self.answers().has.contains(k@),
    ;
}

/// The map after the entries were inserted one by one, from the first.
pub open spec fn insert_all_spec(
    map: Map<DependencyView, Seq<char>>,
    entries: Seq<(DependencyView, Seq<char>)>,
) -> Map<DependencyView, Seq<char>>
    decreases entries.len(),
{
    if entries.len() == 0 {
        map
    } else {
        insert_all_spec(map, entries.drop_last()).insert(entries.last().0, entries.last().1)
    }
}

/// The keys of a list of entries.
pub open spec fn entry_keys(entries: Seq<(DependencyView, Seq<char>)>) -> Set<DependencyView> {
    entries.map_values(|e: (DependencyView, Seq<char>)| e.0).to_set()
}

/// Inserting entries adds their keys to the map's keys, and no other.
pub proof fn lemma_insert_all_keys(
    map: Map<DependencyView, Seq<char>>,
    entries: Seq<(DependencyView, Seq<char>)>,
)
    ensures
        insert_all_spec(map, entries).dom() == map.dom().union(entry_keys(entries)),
    decreases entries.len(),
{
    let keys = entries.map_values(|e: (DependencyView, Seq<char>)| e.0);
    if entries.len() == 0 {
        assert(entry_keys(entries) =~= Set::<DependencyView>::empty());
        assert(map.dom().union(entry_keys(entries)) =~= map.dom());
    } else {
        lemma_insert_all_keys(map, entries.drop_last());
        let front = entries.drop_last().map_values(|e: (DependencyView, Seq<char>)| e.0);
        assert(front =~= keys.drop_last());
        assert forall|k: DependencyView|
            keys.to_set().contains(k) <==> front.to_set().contains(k) || k
                == entries.last().0 by {
            if keys.contains(k) {
                let i = choose|i: int| 0 <= i < keys.len() && keys[i] == k;
                if i < keys.len() - 1 {
                    assert(front[i] == k);
                }
            }
            if front.contains(k) {
                let i = choose|i: int| 0 <= i < front.len() && front[i] == k;
                assert(keys[i] == k);
            }
            if k == entries.last().0 {
                assert(keys[keys.len() - 1] == k);
            }
        }
        assert(insert_all_spec(map, entries).dom() =~= map.dom().union(entry_keys(entries)));
    }
}

/// Map of values which steps may depend on.
///
/// NOTE: the values are "stringly typed", they might be strings, URLs,
/// integer IDs, ... This is a design trade-off to keep things simple.
///
/// The entries are kept in a list in which no key stands twice, and a key is
/// found by comparing it with each: so what the map holds is proved, which it
/// could not be of a hashed map whose keys are texts.
pub struct DependencyHashMap {
    entries: Vec<(Dependency, Rc<String>)>,
    asked: Ghost<Seq<DependencyView>>,
}

impl View for DependencyHashMap {
    type V = Map<DependencyView, Seq<char>>;

    /// The value stored for each key.
    closed spec fn view(&self) -> Map<DependencyView, Seq<char>> {
        Map::new(
            |k: DependencyView|
                exists|i: int| 0 <= i < self.entries@.len() && (#[trigger] self.entries@[i]).0@ == k,
            |k: DependencyView|
                self.entries@[choose|i: int|
                    0 <= i < self.entries@.len() && (#[trigger] self.entries@[i]).0@ == k].1@,
        )
    }
}

impl DependencyHashMap {
    /// No key is stored twice.
    pub closed spec fn distinct(&self) -> bool {
        forall|i: int, j: int|
            0 <= i < j < self.entries@.len() ==> (#[trigger] self.entries@[i]).0@ != (
            #[trigger] self.entries@[j]).0@
    }

    /// The keys that `get` was asked for.
    pub closed spec fn asked(&self) -> Seq<DependencyView> {
        self.asked@
    }

    /// The place of a key in the list, if it is stored.
    fn find(&self, k: &Dependency) -> (at: Option<usize>)
        requires
            self.distinct(),
        ensures
            match at {
                Some(i) => i < self.entries@.len() && self.entries@[i as int].0@ == k@
                    && self@.dom().contains(k@) && self@[k@] == self.entries@[i as int].1@,
                None => !self@.dom().contains(k@),
            },
    {
        let mut i: usize = 0;
        while i < self.entries.len()
            invariant
                self.distinct(),
                i <= self.entries@.len(),
                forall|j: int| 0 <= j < i ==> (#[trigger] self.entries@[j]).0@ != k@,
            decreases self.entries@.len() - i,
        {
            if self.entries[i].0.same(k) {
                proof {
                    let at = choose|j: int|
                        0 <= j < self.entries@.len() && (#[trigger] self.entries@[j]).0@ == k@;
                    assert(at == i) by {
                        if at < i {
                            assert(self.entries@[at].0@ != self.entries@[i as int].0@);
                        }
                        if i < at {
                            assert(self.entries@[i as int].0@ != self.entries@[at].0@);
                        }
                    }
                }
                return Some(i);
            }
            i += 1;
        }
        None
    }

    /// Creates an empty map with at least the specified capacity.
    pub fn with_capacity(capacity: usize) -> (map: Self)
        ensures
            map.distinct(),
            map@ == Map::<DependencyView, Seq<char>>::empty(),
            map.asked() == Seq::<DependencyView>::empty(),
    {
        let map = DependencyHashMap { entries: Vec::with_capacity(capacity), asked: Ghost(Seq::empty()) };
        assert(map@ =~= Map::<DependencyView, Seq<char>>::empty());
        map
    }

    /// Inserts a key-value pair into the map. A value that was stored for the
    /// key before is replaced.
    pub fn insert(&mut self, k: Dependency, v: String)
        requires
            old(self).distinct(),
        ensures
            final(self).distinct(),
            final(self)@ == old(self)@.insert(k@, v@),
            final(self).asked() == old(self).asked(),
    {
        let ghost key = k@;
        let ghost value = v@;
        match self.find(&k) {
            Some(i) => {
                self.entries.set(i, (k, Rc::new(v)));
                proof {
                    assert forall|q: DependencyView| #[trigger]
                        self@.dom().contains(q) <==> old(self)@.insert(key, value).dom().contains(
                            q,
                        ) by {
                        if self@.dom().contains(q) {
                            let j = choose|j: int|
                                0 <= j < self.entries@.len() && (#[trigger] self.entries@[j]).0@
                                    == q;
                            assert(old(self).entries@[j].0@ == q);
                        }
                        if old(self)@.dom().contains(q) {
                            let j = choose|j: int|
                                0 <= j < old(self).entries@.len() && (#[trigger] old(
                                    self,
                                ).entries@[j]).0@ == q;
                            assert(self.entries@[j].0@ == q);
                        }
                        if q == key {
                            assert(self.entries@[i as int].0@ == q);
                        }
                    }
                    assert forall|q: DependencyView| #[trigger]
                        self@.dom().contains(q) implies self@[q] == old(self)@.insert(
                        key,
                        value,
                    )[q] by {
                        let j = choose|j: int|
                            0 <= j < self.entries@.len() && (#[trigger] self.entries@[j]).0@ == q;
                        if q != key {
                            assert(j != i);
                            let o = choose|o: int|
                                0 <= o < old(self).entries@.len() && (#[trigger] old(
                                    self,
                                ).entries@[o]).0@ == q;
                            assert(old(self).entries@[j].0@ == q);
                            assert(o == j) by {
                                if o < j {
                                    assert(old(self).entries@[o].0@ != old(self).entries@[j].0@);
                                }
                                if j < o {
                                    assert(old(self).entries@[j].0@ != old(self).entries@[o].0@);
                                }
                            }
                        } else {
                            assert(j == i) by {
                                if j < i {
                                    assert(self.entries@[j].0@ != self.entries@[i as int].0@);
                                }
                                if i < j {
                                    assert(self.entries@[i as int].0@ != self.entries@[j].0@);
                                }
                            }
                        }
                    }
                    assert(self@ =~= old(self)@.insert(key, value));
                }
            },
            None => {
                self.entries.push((k, Rc::new(v)));
                proof {
                    let last = old(self).entries@.len() as int;
                    assert forall|i: int, j: int|
                        0 <= i < j < self.entries@.len() implies (#[trigger] self.entries@[i]).0@
                        != (#[trigger] self.entries@[j]).0@ by {
                        if j == last {
                            assert(old(self).entries@[i].0@ == self.entries@[i].0@);
                        }
                    }
                    assert forall|q: DependencyView| #[trigger]
                        self@.dom().contains(q) <==> old(self)@.insert(key, value).dom().contains(
                            q,
                        ) by {
                        if self@.dom().contains(q) {
                            let j = choose|j: int|
                                0 <= j < self.entries@.len() && (#[trigger] self.entries@[j]).0@
                                    == q;
                            if j < last {
                                assert(old(self).entries@[j].0@ == q);
                            }
                        }
                        if old(self)@.dom().contains(q) {
                            let j = choose|j: int|
                                0 <= j < old(self).entries@.len() && (#[trigger] old(
                                    self,
                                ).entries@[j]).0@ == q;
                            assert(self.entries@[j].0@ == q);
                        }
                        if q == key {
                            assert(self.entries@[last].0@ == q);
                        }
                    }
                    assert forall|q: DependencyView| #[trigger]
                        self@.dom().contains(q) implies self@[q] == old(self)@.insert(
                        key,
                        value,
                    )[q] by {
                        let j = choose|j: int|
                            0 <= j < self.entries@.len() && (#[trigger] self.entries@[j]).0@ == q;
                        if q != key {
                            assert(j < last);
                            let o = choose|o: int|
                                0 <= o < old(self).entries@.len() && (#[trigger] old(
                                    self,
                                ).entries@[o]).0@ == q;
                            assert(old(self).entries@[j].0@ == q);
                            assert(o == j) by {
                                if o < j {
                                    assert(old(self).entries@[o].0@ != old(self).entries@[j].0@);
                                }
                                if j < o {
                                    assert(old(self).entries@[j].0@ != old(self).entries@[o].0@);
                                }
                            }
                        } else {
                            assert(j == last) by {
                                if j < last {
                                    assert(old(self).entries@[j].0@ == q);
                                    assert(old(self)@.dom().contains(q));
                                }
                            }
                        }
                    }
                    assert(self@ =~= old(self)@.insert(key, value));
                }
            },
        }
    }

    /// Insert multiple values, from the first to the last.
    pub fn insert_all(&mut self, entries: Vec<Entry>)
        requires
            old(self).distinct(),
        ensures
            final(self).distinct(),
            final(self)@ == insert_all_spec(old(self)@, entries_view(entries@)),
            final(self).asked() == old(self).asked(),
    {
        let ghost all = entries_view(entries@);
        let ghost n = entries@.len() as int;
        let mut rest = entries;
        let mut stack: Vec<Entry> = Vec::new();
        while rest.len() > 0
            invariant
                n == entries@.len(),
                rest@.len() + stack@.len() == n,
                rest@ == entries@.take(rest@.len() as int),
                forall|j: int| 0 <= j < stack@.len() ==> stack@[j] == entries@[n - 1 - j],
            decreases rest@.len(),
        {
            let entry = rest.pop().unwrap();
            stack.push(entry);
            assert(rest@ =~= entries@.take(rest@.len() as int));
        }
        while stack.len() > 0
            invariant
                self.distinct(),
                self.asked() == old(self).asked(),
                all == entries_view(entries@),
                n == entries@.len(),
                stack@.len() <= n,
                forall|j: int| 0 <= j < stack@.len() ==> stack@[j] == entries@[n - 1 - j],
                self@ == insert_all_spec(old(self)@, all.take(n - stack@.len())),
            decreases stack@.len(),
        {
            let entry = stack.pop().unwrap();
            proof {
                let done = n - stack@.len();
                assert(entry == entries@[done - 1]);
                assert(all.take(done).drop_last() =~= all.take(done - 1));
                assert(all.take(done).last() == all[done - 1]);
                assert(all[done - 1] == (entry.0@, entry.1@));
            }
            self.insert(entry.0, entry.1);
        }
        proof {
            assert(all.take(n) =~= all);
        }
    }

    /// The value stored for a key, if there is one. Unlike `get`, this leaves
    /// no trace in the list of keys that were asked for.
    pub fn lookup(&self, k: &Dependency) -> (value: Option<Rc<String>>)
        requires
            self.distinct(),
        ensures
            match value {
                Some(v) => self@.dom().contains(k@) && v@ == self@[k@],
                None => !self@.dom().contains(k@),
            },
    {
        match self.find(k) {
            Some(i) => Some(rc_clone(&self.entries[i].1)),
            None => None,
        }
    }

    /// The number of keys that have a value.
    pub fn len(&self) -> (n: usize)
        requires
            self.distinct(),
        ensures
            n == self@.dom().len(),
            self@.dom().finite(),
    {
        proof {
            self.lemma_size(self.entries@.len() as int);
            assert(self.keys_below(self.entries@.len() as int) =~= self@.dom());
        }
        self.entries.len()
    }

    /// The keys stored at the first `n` places.
    closed spec fn keys_below(&self, n: int) -> Set<DependencyView> {
        Set::new(|k: DependencyView| exists|i: int| 0 <= i < n && (#[trigger] self.entries@[i]).0@ == k)
    }

    /// The first `n` places hold `n` keys.
    proof fn lemma_size(&self, n: int)
        requires
            self.distinct(),
            0 <= n <= self.entries@.len(),
        ensures
            self.keys_below(n).finite(),
            self.keys_below(n).len() == n,
        decreases n,
    {
        if n == 0 {
            assert(self.keys_below(0) =~= Set::<DependencyView>::empty());
        } else {
            self.lemma_size(n - 1);
            let k = self.entries@[n - 1].0@;
            assert(!self.keys_below(n - 1).contains(k)) by {
                if self.keys_below(n - 1).contains(k) {
                    let i = choose|i: int| 0 <= i < n - 1 && (#[trigger] self.entries@[i]).0@ == k;
                    assert(self.entries@[i].0@ != self.entries@[n - 1].0@);
                }
            }
            assert(self.keys_below(n) =~= self.keys_below(n - 1).insert(k));
        }
    }
}

impl DependencyMap for DependencyHashMap {
    open spec fn wf(&self) -> bool {
        self.distinct()
    }

    open spec fn answers(&self) -> Answers {
        Answers { has: self@.dom(), values: self@ }
    }

    open spec fn log(&self) -> Seq<DependencyView> {
        self.asked()
    }

    fn get(&mut self, k: Dependency) -> (r: Result<Rc<String>, Dependency>) {
        self.asked = Ghost(self.asked@.push(k@));
        assert(self@ =~= old(self)@);
        match self.find(&k) {
            Some(i) => Ok(rc_clone(&self.entries[i].1)),
            None => Err(k),
        }
    }

    fn contains_key(&self, k: &Dependency) -> (b: bool) {
        self.find(k).is_some()
    }
}

} // verus!
