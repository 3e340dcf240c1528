//! The summary of a run: for each API resource the most important thing that
//! happened to it.
use crate::dependency::{Resource, ResourceView};
use crate::effect::{effect_ok, Outcome, OutcomeView, StepEffect, StepEffectView};
use vstd::prelude::*;

verus! {

/// How important an effect is: an error outweighs an unfulfilled dependency,
/// that a creation, that a modification, and that a resource found in order.
pub open spec fn importance(effect: StepEffectView) -> int {
    match effect {
        StepEffectView::Unmodified => 1,
        StepEffectView::Modified => 2,
        StepEffectView::Created => 3,
        StepEffectView::Unfulfilled(_) => 4,
        StepEffectView::Error(_) => 5,
    }
}

/// Of an effect recorded before and one that comes now, the one to keep: the
/// new one where it is more important, else the old one.
pub open spec fn more_important(
    prev: Option<StepEffectView>,
    current: StepEffectView,
) -> StepEffectView {
    match prev {
        Some(prev) => if importance(current) > importance(prev) {
            current
        } else {
            prev
        },
        None => current,
    }
}

/// The summary after one more outcome.
pub open spec fn update_spec(
    summary: Map<ResourceView, StepEffectView>,
    outcome: OutcomeView,
) -> Map<ResourceView, StepEffectView> {
    let prev = if summary.dom().contains(outcome.target) {
        Some(summary[outcome.target])
    } else {
        None
    };
    summary.insert(outcome.target, more_important(prev, outcome.effect))
}

/// The summary of a sequence of outcomes, taken from the first.
pub open spec fn aggregate(outcomes: Seq<OutcomeView>) -> Map<ResourceView, StepEffectView>
    decreases outcomes.len(),
{
    if outcomes.len() == 0 {
        Map::empty()
    } else {
        update_spec(aggregate(outcomes.drop_last()), outcomes.last())
    }
}

/// The summary holds, for each resource that an outcome names, the effect of
/// the first among the most important outcomes for that resource; it holds
/// nothing for a resource that no outcome names.
pub proof fn lemma_aggregate_is_max(outcomes: Seq<OutcomeView>, target: ResourceView)
    ensures
        aggregate(outcomes).dom().contains(target) <==> exists|i: int|
            0 <= i < outcomes.len() && (#[trigger] outcomes[i]).target == target,
        aggregate(outcomes).dom().contains(target) ==> exists|i: int|
            {
                &&& 0 <= i < outcomes.len()
                &&& (#[trigger] outcomes[i]).target == target
                &&& outcomes[i].effect == aggregate(outcomes)[target]
                &&& forall|j: int|
                    0 <= j < outcomes.len() && (#[trigger] outcomes[j]).target == target
                        ==> importance(outcomes[j].effect) <= importance(outcomes[i].effect)
                &&& forall|j: int|
                    0 <= j < i && (#[trigger] outcomes[j]).target == target ==> importance(
                        outcomes[j].effect,
                    ) < importance(outcomes[i].effect)
            },
    decreases outcomes.len(),
{
    if outcomes.len() > 0 {
        let front = outcomes.drop_last();
        let last = outcomes.last();
        let n = outcomes.len() - 1;
        lemma_aggregate_is_max(front, target);
        assert forall|j: int| 0 <= j < n implies front[j] == outcomes[j] by {}
        if aggregate(front).dom().contains(target) {
            let i = choose|i: int|
                {
                    &&& 0 <= i < front.len()
                    &&& (#[trigger] front[i]).target == target
                    &&& front[i].effect == aggregate(front)[target]
                    &&& forall|j: int|
                        0 <= j < front.len() && (#[trigger] front[j]).target == target
                            ==> importance(front[j].effect) <= importance(front[i].effect)
                    &&& forall|j: int|
                        0 <= j < i && (#[trigger] front[j]).target == target ==> importance(
                            front[j].effect,
                        ) < importance(front[i].effect)
                };
            assert(outcomes[i].target == target);
            if last.target == target && importance(last.effect) > importance(front[i].effect) {
                assert(outcomes[n].target == target);
                assert(outcomes[n].effect == aggregate(outcomes)[target]);
                assert forall|j: int|
                    0 <= j < outcomes.len() && (#[trigger] outcomes[j]).target
                        == target implies importance(outcomes[j].effect) <= importance(
                    outcomes[n].effect,
                ) by {
                    if j < n {
                        assert(front[j].target == target);
                    }
                }
                assert forall|j: int|
                    0 <= j < n && (#[trigger] outcomes[j]).target == target implies importance(
                    outcomes[j].effect,
                ) < importance(outcomes[n].effect) by {
                    assert(front[j].target == target);
                }
            } else {
                assert(outcomes[i].effect == aggregate(outcomes)[target]);
                assert forall|j: int|
                    0 <= j < outcomes.len() && (#[trigger] outcomes[j]).target
                        == target implies importance(outcomes[j].effect) <= importance(
                    outcomes[i].effect,
                ) by {
                    if j < n {
                        assert(front[j].target == target);
                    }
                }
                assert forall|j: int|
                    0 <= j < i && (#[trigger] outcomes[j]).target == target implies importance(
                    outcomes[j].effect,
                ) < importance(outcomes[i].effect) by {
                    assert(front[j].target == target);
                }
            }
        } else {
            if last.target == target {
                assert(outcomes[n].target == target);
                assert(outcomes[n].effect == aggregate(outcomes)[target]);
                assert forall|j: int| 0 <= j < n implies (#[trigger] outcomes[j]).target
                    != target by {
                    assert(front[j] == outcomes[j]);
                }
            } else {
                assert forall|j: int| 0 <= j < outcomes.len() implies (#[trigger] outcomes[j]).target
                    != target by {
                    if j < n {
                        assert(front[j] == outcomes[j]);
                    }
                }
            }
        }
        if exists|i: int| 0 <= i < outcomes.len() && (#[trigger] outcomes[i]).target == target {
            let i = choose|i: int|
                0 <= i < outcomes.len() && (#[trigger] outcomes[i]).target == target;
            if i < n {
                assert(front[i].target == target);
            }
        }
    }
}

/// Rank the importance of a [`StepEffect`].
pub fn importance_of(effect: &StepEffect) -> (rank: u8)
    ensures
        rank == importance(effect@),
{
    match effect {
        StepEffect::Created => 3,
        StepEffect::Unmodified => 1,
        StepEffect::Modified => 2,
        StepEffect::Unfulfilled(_) => 4,
        StepEffect::Error(_) => 5,
    }
}

/// Of an effect recorded before and one that comes now, the one to keep.
pub fn more_important_between(prev: Option<StepEffect>, current: StepEffect) -> (kept: StepEffect)
    ensures
        kept@ == more_important(
            match prev {
                Some(p) => Some(p@),
                None => None,
            },
            current@,
        ),
{
    match prev {
        Some(prev) => {
            if importance_of(&current) > importance_of(&prev) {
                current
            } else {
                prev
            }
        },
        None => current,
    }
}

/// An indication of how many resources have been affected and how so.
#[derive(Copy, Clone, Debug, PartialEq, Eq)]
pub struct Counts {
    /// Count of resources created.
    pub created: u32,
    /// Count of resources unmodified.
    pub unmodified: u32,
    /// Count of resources modified.
    pub modified: u32,
    /// Count of resources which could not be affected due to unsatisfied prerequisites.
    pub unfulfilled: u32,
    /// Count of resources which could not be modified due to errors.
    pub error: u32,
}

/// How many of the first `n` effects are of the given importance.
pub open spec fn count_rank(effects: Seq<StepEffectView>, rank: int) -> nat
    decreases effects.len(),
{
    if effects.len() == 0 {
        0
    } else {
        count_rank(effects.drop_last(), rank) + if importance(effects.last()) == rank {
            1nat
        } else {
            0nat
        }
    }
}

/// No more effects are of one importance than there are effects.
pub proof fn lemma_count_rank_bound(effects: Seq<StepEffectView>, rank: int)
    ensures
        count_rank(effects, rank) <= effects.len(),
    decreases effects.len(),
{
    if effects.len() > 0 {
        lemma_count_rank_bound(effects.drop_last(), rank);
    }
}

/// Every effect is of exactly one of the five kinds.
pub proof fn lemma_counts_partition(effects: Seq<StepEffectView>)
    ensures
        count_rank(effects, 1) + count_rank(effects, 2) + count_rank(effects, 3) + count_rank(
            effects,
            4,
        ) + count_rank(effects, 5) == effects.len(),
    decreases effects.len(),
{
    if effects.len() > 0 {
        lemma_counts_partition(effects.drop_last());
    }
}

/// No effect is an error or an unfulfilled dependency exactly when every
/// effect is one of a step that did its work.
pub proof fn lemma_all_ok(effects: Seq<StepEffectView>)
    ensures
        count_rank(effects, 4) + count_rank(effects, 5) == 0 <==> forall|i: int|
            0 <= i < effects.len() ==> effect_ok(#[trigger] effects[i]),
    decreases effects.len(),
{
    if effects.len() > 0 {
        let front = effects.drop_last();
        lemma_all_ok(front);
        assert forall|i: int| 0 <= i < front.len() implies front[i] == effects[i] by {}
        if count_rank(effects, 4) + count_rank(effects, 5) == 0 {
            assert forall|i: int| 0 <= i < effects.len() implies effect_ok(
                #[trigger] effects[i],
            ) by {
                if i < front.len() {
                    assert(effect_ok(front[i]));
                }
            }
        }
        if forall|i: int| 0 <= i < effects.len() ==> effect_ok(#[trigger] effects[i]) {
            assert forall|i: int| 0 <= i < front.len() implies effect_ok(#[trigger] front[i]) by {
                assert(effect_ok(effects[i]));
            }
            assert(effect_ok(effects[effects.len() - 1]));
        }
    }
}

/// What a list of effects says, in order.
pub open spec fn effects_view(effects: Seq<StepEffect>) -> Seq<StepEffectView> {
    effects.map_values(|e: StepEffect| e@)
}

impl Counts {
    /// No resource counted.
    pub fn zero() -> (counts: Counts)
        ensures
            counts == (Counts { created: 0, unmodified: 0, modified: 0, unfulfilled: 0, error: 0 }),
    {
        Counts { created: 0, unmodified: 0, modified: 0, unfulfilled: 0, error: 0 }
    }

    /// Counts the effects of each kind.
    pub fn from_iter(effects: &Vec<StepEffect>) -> (counts: Counts)
        requires
            effects@.len() <= u32::MAX,
        ensures
            counts.unmodified == count_rank(effects_view(effects@), 1),
            counts.modified == count_rank(effects_view(effects@), 2),
            counts.created == count_rank(effects_view(effects@), 3),
            counts.unfulfilled == count_rank(effects_view(effects@), 4),
            counts.error == count_rank(effects_view(effects@), 5),
    {
        let ghost all = effects_view(effects@);
        let mut counts = Counts::zero();
        let mut i: usize = 0;
        while i < effects.len()
            invariant
                i <= effects@.len(),
                effects@.len() <= u32::MAX,
                all == effects_view(effects@),
                counts.unmodified == count_rank(all.take(i as int), 1),
                counts.modified == count_rank(all.take(i as int), 2),
                counts.created == count_rank(all.take(i as int), 3),
                counts.unfulfilled == count_rank(all.take(i as int), 4),
                counts.error == count_rank(all.take(i as int), 5),
            decreases effects@.len() - i,
        {
            proof {
                let next = all.take(i + 1);
                assert(next.drop_last() =~= all.take(i as int));
                assert(next.last() == effects@[i as int]@);
                lemma_count_rank_bound(next, 1);
                lemma_count_rank_bound(next, 2);
                lemma_count_rank_bound(next, 3);
                lemma_count_rank_bound(next, 4);
                lemma_count_rank_bound(next, 5);
            }
            match &effects[i] {
                StepEffect::Created => {
                    counts.created = counts.created + 1;
                },
                StepEffect::Unmodified => {
                    counts.unmodified = counts.unmodified + 1;
                },
                StepEffect::Modified => {
                    counts.modified = counts.modified + 1;
                },
                StepEffect::Unfulfilled(_) => {
                    counts.unfulfilled = counts.unfulfilled + 1;
                },
                StepEffect::Error(_) => {
                    counts.error = counts.error + 1;
                },
            }
            i += 1;
        }
        proof {
            assert(all.take(effects@.len() as int) =~= all);
        }
        counts
    }

    /// The number of resources that an error or an unfulfilled dependency
    /// was recorded for.
    pub fn num_bad(&self) -> (n: u64)
        ensures
            n == self.unfulfilled + self.error,
    {
        self.unfulfilled as u64 + self.error as u64
    }

    /// Returns `true` if nothing went wrong: no error and no unfulfilled
    /// dependency was recorded.
    pub fn all_ok(&self) -> (b: bool)
        ensures
            b == (self.unfulfilled + self.error == 0),
    {
        self.unfulfilled == 0 && self.error == 0
    }
}

impl Default for Counts {
    fn default() -> (counts: Counts)
        ensures
            counts == (Counts { created: 0, unmodified: 0, modified: 0, unfulfilled: 0, error: 0 }),
    {
        Counts::zero()
    }
}

/// The resources whose recorded effect is of the given importance.
pub open spec fn targets_of_rank(
    summary: Map<ResourceView, StepEffectView>,
    rank: int,
) -> Set<ResourceView> {
    Set::new(|t: ResourceView| summary.dom().contains(t) && importance(summary[t]) == rank)
}

/// For each API resource the most important effect reported for it.
///
/// The resources are kept in a list in which none stands twice, each with
/// its effect at the same place of the other list.
pub struct ChrisomaticEffects {
    targets: Vec<Resource>,
    effects: Vec<StepEffect>,
}

impl View for ChrisomaticEffects {
    type V = Map<ResourceView, StepEffectView>;

    /// The effect recorded for each resource.
    closed spec fn view(&self) -> Map<ResourceView, StepEffectView> {
        Map::new(
            |t: ResourceView|
                exists|i: int| 0 <= i < self.targets@.len() && (#[trigger] self.targets@[i])@ == t,
            |t: ResourceView|
                self.effects@[choose|i: int|
                    0 <= i < self.targets@.len() && (#[trigger] self.targets@[i])@ == t]@,
        )
    }
}

impl ChrisomaticEffects {
    /// What holds of every summary: one effect for each resource, and no
    /// resource twice.
    pub closed spec fn wf(&self) -> bool {
        &&& self.targets@.len() == self.effects@.len()
        &&& forall|i: int, j: int|
            0 <= i < j < self.targets@.len() ==> (#[trigger] self.targets@[i])@ != (
            #[trigger] self.targets@[j])@
    }

    /// The recorded effects, one for each resource.
    closed spec fn recorded(&self) -> Seq<StepEffectView> {
        effects_view(self.effects@)
    }

    /// An empty summary, with room for `capacity` resources.
    pub fn with_capacity(capacity: usize) -> (summary: Self)
        ensures
            summary.wf(),
            summary@ == Map::<ResourceView, StepEffectView>::empty(),
    {
        let summary = ChrisomaticEffects {
            targets: Vec::with_capacity(capacity),
            effects: Vec::with_capacity(capacity),
        };
        assert(summary@ =~= Map::<ResourceView, StepEffectView>::empty());
        summary
    }

    /// The place of a resource in the summary, if an effect is recorded for it.
    fn find(&self, target: &Resource) -> (at: Option<usize>)
        requires
            self.wf(),
        ensures
            match at {
                Some(i) => i < self.targets@.len() && self.targets@[i as int]@ == target@
                    && self@.dom().contains(target@) && self@[target@] == self.effects@[i as int]@,
                None => !self@.dom().contains(target@),
            },
    {
        let mut i: usize = 0;
        while i < self.targets.len()
            invariant
                self.wf(),
                i <= self.targets@.len(),
                forall|j: int| 0 <= j < i ==> (#[trigger] self.targets@[j])@ != target@,
            decreases self.targets@.len() - i,
        {
            if self.targets[i].same(target) {
                proof {
                    let at = choose|j: int|
                        0 <= j < self.targets@.len() && (#[trigger] self.targets@[j])@ == target@;
                    assert(at == i) by {
                        if at < i {
                            assert(self.targets@[at]@ != self.targets@[i as int]@);
                        }
                        if i < at {
                            assert(self.targets@[i as int]@ != self.targets@[at]@);
                        }
                    }
                }
                return Some(i);
            }
            i += 1;
        }
        None
    }

    /// Record an effect happened to a target.
    ///
    /// If called more than once for the same target, the saved value might be
    /// overwritten depending on "importance:" e.g. if a previous step produced
    /// [`StepEffect::Created`] for some target, but then a later step produces
    /// [`StepEffect::Error`] for that same target, [`StepEffect::Error`] will
    /// overwrite the previous value because [`StepEffect::Error`] is more
    /// "important" than [`StepEffect::Created`].
    pub fn update(&mut self, outcome: Outcome)
        requires
            old(self).wf(),
        ensures
            final(self).wf(),
            final(self)@ == update_spec(old(self)@, outcome@),
    {
        let ghost target = outcome.target@;
        let ghost want = update_spec(old(self)@, outcome@);
        let Outcome { target: resource, effect } = outcome;
        match self.find(&resource) {
            Some(i) => {
                if importance_of(&effect) > importance_of(&self.effects[i]) {
                    self.effects.set(i, effect);
                }
                proof {
                    assert forall|t: ResourceView| #[trigger] self@.dom().contains(t) implies self@[t]
                        == want[t] by {
                        let j = choose|j: int|
                            0 <= j < self.targets@.len() && (#[trigger] self.targets@[j])@ == t;
                        let o = choose|o: int|
                            0 <= o < old(self).targets@.len() && (#[trigger] old(
                                self,
                            ).targets@[o])@ == t;
                        assert(o == j);
                        if t == target {
                            assert(j == i) by {
                                if j < i {
                                    assert(self.targets@[j]@ != self.targets@[i as int]@);
                                }
                                if i < j {
                                    assert(self.targets@[i as int]@ != self.targets@[j]@);
                                }
                            }
                        }
                    }
                    assert(self@ =~= want);
                }
            },
            None => {
                self.targets.push(resource);
                self.effects.push(effect);
                proof {
                    let last = old(self).targets@.len() as int;
                    assert forall|i: int, j: int|
                        0 <= i < j < self.targets@.len() implies (#[trigger] self.targets@[i])@ != (
                    #[trigger] self.targets@[j])@ by {
                        if j == last {
                            assert(old(self).targets@[i]@ == self.targets@[i]@);
                        }
                    }
                    assert forall|t: ResourceView| #[trigger]
                        self@.dom().contains(t) <==> want.dom().contains(t) by {
                        if self@.dom().contains(t) {
                            let j = choose|j: int|
                                0 <= j < self.targets@.len() && (#[trigger] self.targets@[j])@ == t;
                            if j < last {
                                assert(old(self).targets@[j]@ == t);
                            }
                        }
                        if old(self)@.dom().contains(t) {
                            let j = choose|j: int|
                                0 <= j < old(self).targets@.len() && (#[trigger] old(
                                    self,
                                ).targets@[j])@ == t;
                            assert(self.targets@[j]@ == t);
                        }
                        if t == target {
                            assert(self.targets@[last]@ == t);
                        }
                    }
                    assert forall|t: ResourceView| #[trigger] self@.dom().contains(t) implies self@[t]
                        == want[t] by {
                        let j = choose|j: int|
                            0 <= j < self.targets@.len() && (#[trigger] self.targets@[j])@ == t;
                        if t != target {
                            assert(j < last);
                            let o = choose|o: int|
                                0 <= o < old(self).targets@.len() && (#[trigger] old(
                                    self,
                                ).targets@[o])@ == t;
                            assert(old(self).targets@[j]@ == t);
                            assert(o == j) by {
                                if o < j {
                                    assert(old(self).targets@[o]@ != old(self).targets@[j]@);
                                }
                                if j < o {
                                    assert(old(self).targets@[j]@ != old(self).targets@[o]@);
                                }
                            }
                        } else {
                            assert(j == last) by {
                                if j < last {
                                    assert(old(self).targets@[j]@ == t);
                                    assert(old(self)@.dom().contains(t));
                                }
                            }
                        }
                    }
                    assert(self@ =~= want);
                }
            },
        }
    }

    /// The effect recorded for a resource, if there is one.
    pub fn get(&self, target: &Resource) -> (effect: Option<&StepEffect>)
        requires
            self.wf(),
        ensures
            match effect {
                Some(e) => self@.dom().contains(target@) && e@ == self@[target@],
                None => !self@.dom().contains(target@),
            },
    {
        match self.find(target) {
            Some(i) => Some(&self.effects[i]),
            None => None,
        }
    }

    /// The resources at the first `n` places whose effect is of the given
    /// importance.
    closed spec fn ranked_below(&self, n: int, rank: int) -> Set<ResourceView> {
        Set::new(
            |t: ResourceView|
                exists|i: int|
                    0 <= i < n && (#[trigger] self.targets@[i])@ == t && importance(
                        self.effects@[i]@,
                    ) == rank,
        )
    }

    /// The resources at the first `n` places.
    closed spec fn targets_below(&self, n: int) -> Set<ResourceView> {
        Set::new(|t: ResourceView| exists|i: int| 0 <= i < n && (#[trigger] self.targets@[i])@ == t)
    }

    /// Among the first `n` places, as many resources have an effect of an
    /// importance as there are effects of that importance.
    proof fn lemma_ranked_below(&self, n: int, rank: int)
        requires
            self.wf(),
            0 <= n <= self.targets@.len(),
        ensures
            self.ranked_below(n, rank).finite(),
            self.ranked_below(n, rank).len() == count_rank(self.recorded().take(n), rank),
            self.targets_below(n).finite(),
            self.targets_below(n).len() == n,
        decreases n,
    {
        if n == 0 {
            assert(self.ranked_below(0, rank) =~= Set::<ResourceView>::empty());
            assert(self.targets_below(0) =~= Set::<ResourceView>::empty());
        } else {
            self.lemma_ranked_below(n - 1, rank);
            let t = self.targets@[n - 1]@;
            assert(self.recorded().take(n).drop_last() =~= self.recorded().take(n - 1));
            assert(self.recorded().take(n).last() == self.effects@[n - 1]@);
            assert(!self.targets_below(n - 1).contains(t)) by {
                if self.targets_below(n - 1).contains(t) {
                    let i = choose|i: int| 0 <= i < n - 1 && (#[trigger] self.targets@[i])@ == t;
                    assert(self.targets@[i]@ != self.targets@[n - 1]@);
                }
            }
            assert(!self.ranked_below(n - 1, rank).contains(t)) by {
                if self.ranked_below(n - 1, rank).contains(t) {
                    let i = choose|i: int|
                        0 <= i < n - 1 && (#[trigger] self.targets@[i])@ == t && importance(
                            self.effects@[i]@,
                        ) == rank;
                    assert(self.targets@[i]@ != self.targets@[n - 1]@);
                }
            }
            assert(self.targets_below(n) =~= self.targets_below(n - 1).insert(t));
            if importance(self.effects@[n - 1]@) == rank {
                assert(self.ranked_below(n, rank) =~= self.ranked_below(n - 1, rank).insert(t));
            } else {
                assert(self.ranked_below(n, rank) =~= self.ranked_below(n - 1, rank));
            }
        }
    }

    /// The summary holds as many resources with an effect of an importance as
    /// there are recorded effects of that importance.
    proof fn lemma_ranked(&self, rank: int)
        requires
            self.wf(),
        ensures
            targets_of_rank(self@, rank).finite(),
            targets_of_rank(self@, rank).len() == count_rank(self.recorded(), rank),
            self@.dom().finite(),
            self@.dom().len() == self.recorded().len(),
    {
        let n = self.targets@.len() as int;
        self.lemma_ranked_below(n, rank);
        assert(self.recorded().take(n) =~= self.recorded());
        assert(self.targets_below(n) =~= self@.dom());
        assert forall|t: ResourceView|
            self.ranked_below(n, rank).contains(t) <==> targets_of_rank(self@, rank).contains(
                t,
            ) by {
            if self.ranked_below(n, rank).contains(t) {
                let i = choose|i: int|
                    0 <= i < n && (#[trigger] self.targets@[i])@ == t && importance(
                        self.effects@[i]@,
                    ) == rank;
                let c = choose|c: int| 0 <= c < n && (#[trigger] self.targets@[c])@ == t;
                assert(c == i) by {
                    if c < i {
                        assert(self.targets@[c]@ != self.targets@[i]@);
                    }
                    if i < c {
                        assert(self.targets@[i]@ != self.targets@[c]@);
                    }
                }
            }
            if targets_of_rank(self@, rank).contains(t) {
                let c = choose|c: int| 0 <= c < n && (#[trigger] self.targets@[c])@ == t;
                assert(importance(self.effects@[c]@) == rank);
            }
        }
        assert(self.ranked_below(n, rank) =~= targets_of_rank(self@, rank));
    }

    /// The number of resources in the summary.
    pub fn len(&self) -> (n: usize)
        requires
            self.wf(),
        ensures
            self@.dom().finite(),
            n == self@.dom().len(),
    {
        proof {
            self.lemma_ranked(1);
        }
        self.effects.len()
    }

    /// Count value types: how many resources have an effect of each kind.
    pub fn count(&self) -> (counts: Counts)
        requires
            self.wf(),
            self@.dom().len() <= u32::MAX,
        ensures
            counts.unmodified == targets_of_rank(self@, 1).len(),
            counts.modified == targets_of_rank(self@, 2).len(),
            counts.created == targets_of_rank(self@, 3).len(),
            counts.unfulfilled == targets_of_rank(self@, 4).len(),
            counts.error == targets_of_rank(self@, 5).len(),
    {
        proof {
            self.lemma_ranked(1);
            self.lemma_ranked(2);
            self.lemma_ranked(3);
            self.lemma_ranked(4);
            self.lemma_ranked(5);
        }
        Counts::from_iter(&self.effects)
    }
}

} // verus!
