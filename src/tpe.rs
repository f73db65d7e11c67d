//! The Tree-structured Parzen Estimator sampler: it keeps the search space
//! current and gives each trial a stable dense index.
use vstd::prelude::*;
use rand::rngs::StdRng;
use crate::model::{
    Distribution, Observation, ParameterValue, SamplerError, SearchSpace, Target, Trial,
    trials_view,
};
use crate::random::{drawn_from, sampleable, RandomSampler};
use crate::tracker::{sync_trials, Entries, SearchSpaceTracker};

verus! {

/// The identifiers of `ts`, appended in order to `ids` where not yet there.
pub open spec fn index_ids(ids: Seq<Seq<char>>, ts: Seq<Seq<char>>) -> Seq<Seq<char>>
    decreases ts.len(),
{
    if ts.len() == 0 {
        ids
    } else {
        let r = index_ids(ids, ts.drop_last());
        if r.contains(ts.last()) {
            r
        } else {
            r.push(ts.last())
        }
    }
}

pub open spec fn trial_ids(ts: Seq<Trial>) -> Seq<Seq<char>> {
    ts.map_values(|t: Trial| t.trial_id@)
}

pub struct TPESampler {
    fallback_sampler: RandomSampler,
    search_space_tracker: SearchSpaceTracker,
    trial_ids: Vec<String>,
}

impl Default for TPESampler {
    fn default() -> (r: Self)
        ensures
            r.wf(),
            r.space() == Seq::<(Seq<char>, crate::model::DV)>::empty(),
            r.ids() == Seq::<Seq<char>>::empty(),
    {
        TPESampler::new()
    }
}

impl TPESampler {
    /// The search space as the tracker holds it.
    pub closed spec fn space(&self) -> Entries {
        self.search_space_tracker@
    }

    /// The indexed trial identifiers; the index of each is its position.
    pub closed spec fn ids(&self) -> Seq<Seq<char>> {
        self.trial_ids@.map_values(|s: String| s@)
    }

    pub closed spec fn wf(&self) -> bool {
        self.search_space_tracker.wf() && self.ids().no_duplicates()
    }

    pub fn new() -> (r: Self)
        ensures
            r.wf(),
            r.space() == Seq::<(Seq<char>, crate::model::DV)>::empty(),
            r.ids() == Seq::<Seq<char>>::empty(),
    {
        let r = TPESampler {
            fallback_sampler: RandomSampler::new(),
            search_space_tracker: SearchSpaceTracker::new(),
            trial_ids: Vec::new(),
        };
        assert(r.ids() =~= Seq::<Seq<char>>::empty());
        r
    }

    /// Starts over from a declared search space; no trial stays indexed. A
    /// name that stands twice in `search_space` is rejected, and nothing
    /// changes then.
    pub fn init(&mut self, search_space: SearchSpace, targets: Vec<Target>) -> (r: Result<
        (),
        SamplerError,
    >)
        requires
            old(self).wf(),
        ensures
            final(self).wf(),
            r is Ok ==> final(self).space() == search_space@ && final(self).ids() == Seq::<
                Seq<char>,
            >::empty(),
            r is Err ==> final(self).space() == old(self).space() && final(self).ids() == old(
                self,
            ).ids(),
            r is Ok <==> crate::tracker::unique_names(search_space@),
    {
        let ghost sv = search_space@;
        match self.search_space_tracker.init(search_space) {
            Err(e) => Err(e),
            Ok(()) => {
                self.fallback_sampler.init(SearchSpace { distributions: Vec::new() }, targets);
                self.trial_ids = Vec::new();
                assert(self.ids() =~= Seq::<Seq<char>>::empty());
                Ok(())
            },
        }
    }

    /// Brings the trials into the search space and indexes each new trial
    /// identifier, in order. On an error nothing changes.
    pub fn sync(&mut self, trials: &Vec<Trial>) -> (r: Result<(), SamplerError>)
        requires
            old(self).wf(),
        ensures
            final(self).wf(),
            match sync_trials(old(self).space(), trials_view(trials@)) {
                Ok(e) => r is Ok && final(self).space() == e && final(self).ids() == index_ids(
                    old(self).ids(),
                    trial_ids(trials@),
                ),
                Err(x) => r == Err::<(), SamplerError>(x) && final(self).space() == old(
                    self,
                ).space() && final(self).ids() == old(self).ids(),
            },
    {
        self.fallback_sampler.sync(trials);
        match self.search_space_tracker.sync(trials) {
            Err(e) => {
                return Err(e);
            },
            Ok(()) => {},
        }
        let ghost ids0 = self.ids();
        let ghost space1 = self.space();
        let ghost tids = trial_ids(trials@);
        let mut t: usize = 0;
        while t < trials.len()
            invariant
                t <= trials.len(),
                tids == trial_ids(trials@),
                self.ids() == index_ids(ids0, tids.take(t as int)),
                self.ids().no_duplicates(),
                self.search_space_tracker.wf(),
                self.space() == space1,
                ids0 == old(self).ids(),
                sync_trials(old(self).space(), trials_view(trials@)) == Ok::<Entries, SamplerError>(
                    space1,
                ),
            decreases trials.len() - t,
        {
            assert(tids.take(t + 1).drop_last() =~= tids.take(t as int));
            assert(tids[t as int] == trials@[t as int].trial_id@);
            let id = &trials[t].trial_id;
            if self.trial_index(id).is_none() {
                let ghost before = self.ids();
                self.trial_ids.push(id.clone());
                assert(self.ids() =~= before.push(id@));
            }
            t = t + 1;
        }
        assert(tids.take(t as int) =~= tids);
        Ok(())
    }

    /// The dense index of a trial identifier, if it has been indexed.
    pub fn trial_index(&self, trial_id: &String) -> (r: Option<usize>)
        ensures
            r matches Some(i) ==> i < self.ids().len() && self.ids()[i as int] == trial_id@,
            r is None <==> !self.ids().contains(trial_id@),
    {
        let mut i: usize = 0;
        while i < self.trial_ids.len()
            invariant
                i <= self.trial_ids.len(),
                forall|j: int| 0 <= j < i ==> (#[trigger] self.ids()[j]) != trial_id@,
            decreases self.trial_ids.len() - i,
        {
            assert(self.ids()[i as int] == self.trial_ids@[i as int]@);
            if self.trial_ids[i] == *trial_id {
                return Some(i);
            }
            i = i + 1;
        }
        None
    }

    /// The number of indexed trials.
    pub fn num_indexed(&self) -> (r: usize)
        ensures
            r == self.ids().len(),
    {
        self.trial_ids.len()
    }

    /// The search space that the trials so far have established.
    pub fn search_space(&self) -> (r: &SearchSpace)
        ensures
            r@ == self.space(),
    {
        self.search_space_tracker.search_space()
    }

    /// A single draw from `distribution`, made by the fallback random sampler.
    pub fn sample<F: Fn(u64, u64, u64) -> u64>(
        &self,
        distribution: &Distribution,
        rng: &mut StdRng,
        to_real: &F,
    ) -> (r: Result<ParameterValue, SamplerError>)
        requires
            forall|low: u64, high: u64, k: u64| to_real.requires((low, high, k)),
        ensures
            r is Ok <==> sampleable(distribution@),
            r matches Ok(v) ==> drawn_from(distribution@->Some_0, v@),
            r matches Err(e) ==> e == SamplerError::MalformedDistribution,
    {
        self.fallback_sampler.sample(distribution, rng, to_real)
    }

    /// No parameter is modelled jointly here: the observation is empty, and
    /// callers fill each parameter with `sample`.
    pub fn joint_sample(&self, fixed: &Observation, rng: &mut StdRng) -> (r: Observation)
        ensures
            r.parameters@.len() == 0,
    {
        self.fallback_sampler.joint_sample(fixed, rng)
    }
}

} // verus!
