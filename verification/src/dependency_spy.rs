//! A map that watches what a pending step asks for.
use crate::dependency::{keys_view, Dependency, DependencyView};
use crate::state::{Answers, DependencyMap};
use crate::steps::{dependencies_spec, spy_answers, PendingStep};
use std::rc::Rc;
use vstd::prelude::*;

verus! {

/// A [`DependencyMap`] used to inspect [`PendingStep`] implementations: it
/// hands out an empty value for every key, says of no key that it contains
/// it, and remembers the keys it was asked for.
pub struct DependencySpy {
    seen: Vec<Dependency>,
    asked: Ghost<Seq<DependencyView>>,
}

impl DependencySpy {
    /// The keys that were remembered are those that were asked for, each once.
    pub closed spec fn recorded(&self) -> bool {
        &&& keys_view(self.seen@).no_duplicates()
        &&& forall|k: DependencyView|
            #![trigger keys_view(self.seen@).contains(k)]
            #![trigger self.asked@.contains(k)]
            keys_view(self.seen@).contains(k) <==> self.asked@.contains(k)
    }

    /// The keys that were asked for, in the order of the calls.
    pub closed spec fn asked(&self) -> Seq<DependencyView> {
        self.asked@
    }

    /// A spy that was asked nothing yet.
    pub fn new() -> (spy: Self)
        ensures
            spy.recorded(),
            spy.asked() == Seq::<DependencyView>::empty(),
    {
        DependencySpy { seen: Vec::new(), asked: Ghost(Seq::empty()) }
    }

    /// Returns `true` if the key was asked for before.
    fn has_seen(&self, k: &Dependency) -> (b: bool)
        ensures
            b == keys_view(self.seen@).contains(k@),
    {
        let mut i: usize = 0;
        while i < self.seen.len()
            invariant
                i <= self.seen@.len(),
                forall|j: int| 0 <= j < i ==> keys_view(self.seen@)[j] != k@,
            decreases self.seen@.len() - i,
        {
            if self.seen[i].same(k) {
                assert(keys_view(self.seen@)[i as int] == k@);
                return true;
            }
            i += 1;
        }
        false
    }

    /// The keys that the spy was asked for, each once.
    pub fn into_inner(self) -> (keys: Vec<Dependency>)
        requires
            self.recorded(),
        ensures
            keys_view(keys@).no_duplicates(),
            keys_view(keys@).to_set() == self.asked().to_set(),
    {
        proof {
            assert(keys_view(self.seen@).to_set() =~= self.asked@.to_set());
        }
        self.seen
    }
}

impl DependencyMap for DependencySpy {
    open spec fn wf(&self) -> bool {
        self.recorded()
    }

    open spec fn answers(&self) -> Answers {
        spy_answers()
    }

    open spec fn log(&self) -> Seq<DependencyView> {
        self.asked()
    }

    fn get(&mut self, k: Dependency) -> (r: Result<Rc<String>, Dependency>) {
        let ghost key = k@;
        let ghost before = keys_view(self.seen@);
        self.asked = Ghost(self.asked@.push(key));
        if !self.has_seen(&k) {
            self.seen.push(k);
            proof {
                assert(keys_view(self.seen@) =~= before.push(key));
                assert forall|i: int, j: int|
                    0 <= i < j < keys_view(self.seen@).len() implies keys_view(self.seen@)[i]
                    != keys_view(self.seen@)[j] by {
                    if j == before.len() {
                        assert(before[i] == keys_view(self.seen@)[i]);
                        assert(before.contains(before[i]));
                    }
                }
            }
        }
        proof {
            let now = keys_view(self.seen@);
            let asked = old(self).asked@;
            assert forall|q: DependencyView|
                #![trigger keys_view(self.seen@).contains(q)]
                #![trigger self.asked@.contains(q)]
                now.contains(q) <==> self.asked@.contains(q) by {
                assert(before.contains(q) <==> asked.contains(q));
                if now.contains(q) {
                    let i = choose|i: int| 0 <= i < now.len() && now[i] == q;
                    if i < before.len() {
                        assert(before[i] == q);
                        assert(before.contains(q));
                        let j = choose|j: int| 0 <= j < asked.len() && asked[j] == q;
                        assert(self.asked@[j] == q);
                    } else {
                        assert(self.asked@[asked.len() as int] == q);
                    }
                }
                if self.asked@.contains(q) {
                    let j = choose|j: int| 0 <= j < self.asked@.len() && self.asked@[j] == q;
                    if j < asked.len() {
                        assert(asked[j] == q);
                        assert(before.contains(q));
                        let i = choose|i: int| 0 <= i < before.len() && before[i] == q;
                        assert(now[i] == q);
                    } else if before.contains(q) {
                        let i = choose|i: int| 0 <= i < before.len() && before[i] == q;
                        assert(now[i] == q);
                    } else {
                        assert(now[before.len() as int] == q);
                    }
                }
            }
        }
        Ok(Rc::new(String::new()))
    }

    fn contains_key(&self, k: &Dependency) -> (b: bool) {
        false
    }
}

/// Get the dependencies of a [`PendingStep`]: the keys that it asks a map
/// for which has a value for every key, each once.
pub fn dependencies_of(step: &PendingStep) -> (keys: Vec<Dependency>)
    ensures
        keys_view(keys@).no_duplicates(),
        keys_view(keys@).to_set() == dependencies_spec(step@),
{
    let mut spy = DependencySpy::new();
    let _ = step.evaluate(&mut spy);
    proof {
        assert(spy.asked() =~= crate::steps::reads_spec(step@, spy_answers()));
    }
    spy.into_inner()
}

} // verus!
