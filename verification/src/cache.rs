//! A bounded cache of compiled plans, keyed by their content address.
//!
//! The capacity is the caller's and hard: a full cache refuses a new plan and
//! forgets none. An address is derived from the segments alone, so plans that
//! differ only in their input length share one, and the first of them is kept.
use crate::digest::json_address;
use crate::identity::plan_document;
use crate::ops::ExecuteError;
use crate::plan::{compilation, PlanModel};
use crate::plan::{compile_plan, CompiledPlan};
use crate::text::same_text;
use vstd::prelude::*;
use vstd::string::StringExecFns;

verus! {

/// Why a plan is not in the cache.
#[derive(Debug, PartialEq, Eq)]
pub enum PlanCacheError {
    /// The records do not compile, or the plan has no address.
    Plan(ExecuteError),
    /// The cache holds as many plans as it may.
    Full { capacity: usize },
}

/// A plan under its address.
pub struct CachedPlan {
    pub address: String,
    pub plan: CompiledPlan,
}

/// Compiled plans under different addresses, up to a capacity.
pub struct PlanCache {
    entries: Vec<CachedPlan>,
    capacity: usize,
}

/// Whether a plan is held under an address.
pub open spec fn holds(plans: Seq<(Seq<char>, PlanModel)>, address: Seq<char>) -> bool {
    exists|i: int| 0 <= i < plans.len() && (#[trigger] plans[i]).0 == address
}

/// The plans after one was offered under its address: it joins them where the
/// address is new.
pub open spec fn joined(
    plans: Seq<(Seq<char>, PlanModel)>,
    address: Seq<char>,
    plan: PlanModel,
) -> Seq<(Seq<char>, PlanModel)> {
    if holds(plans, address) {
        plans
    } else {
        plans.push((address, plan))
    }
}

impl PlanCache {
    /// The addresses and the plans under them, oldest first.
    pub closed spec fn plans(&self) -> Seq<(Seq<char>, PlanModel)> {
        Seq::new(
            self.entries@.len(),
            |i: int| (self.entries@[i].address@, self.entries@[i].plan.model()),
        )
    }

    /// How many plans the cache may hold.
    pub closed spec fn limit(&self) -> usize {
        self.capacity
    }

    /// The plans are within the capacity and have different addresses.
    pub closed spec fn well_formed(&self) -> bool {
        &&& self.entries@.len() <= self.capacity
        &&& forall|i: int|
            0 <= i < self.entries@.len() ==> (#[trigger] self.entries@[i]).plan.well_formed()
        &&& forall|i: int, j: int|
            #![trigger self.plans()[i], self.plans()[j]]
            0 <= i < j < self.plans().len() ==> self.plans()[i].0 != self.plans()[j].0
    }

    /// No cache exceeds its capacity or holds an address twice.
    pub proof fn bounded_and_distinct(&self)
        requires
            self.well_formed(),
        ensures
            self.plans().len() <= self.limit(),
            forall|i: int, j: int|
                #![trigger self.plans()[i], self.plans()[j]]
                0 <= i < j < self.plans().len() ==> self.plans()[i].0 != self.plans()[j].0,
    {
    }

    /// An empty cache for so many plans.
    pub fn new(capacity: usize) -> (cache: Self)
        ensures
            cache.well_formed(),
            cache.plans() == Seq::<(Seq<char>, PlanModel)>::empty(),
            cache.limit() == capacity,
    {
        let cache = PlanCache { entries: Vec::new(), capacity };
        assert(cache.plans() =~= Seq::<(Seq<char>, PlanModel)>::empty());
        cache
    }

    /// How many plans the cache holds.
    pub fn len(&self) -> (count: usize)
        ensures
            count == self.plans().len(),
    {
        self.entries.len()
    }

    /// The place of the plan under an address, if there is one.
    fn position(&self, address: &str) -> (place: Option<usize>)
        ensures
            match place {
                Some(index) => index < self.entries@.len() && self.plans()[index as int].0
                    == address@,
                None => !holds(self.plans(), address@),
            },
    {
        let mut index: usize = 0;
        while index < self.entries.len()
            invariant
                index <= self.entries@.len(),
                forall|i: int| 0 <= i < index ==> (#[trigger] self.plans()[i]).0 != address@,
            decreases self.entries@.len() - index,
        {
            if same_text(self.entries[index].address.as_str(), address) {
                return Some(index);
            }
            index += 1;
        }
        None
    }

    /// The plan under an address.
    pub fn get(&self, address: &str) -> (found: Option<&CompiledPlan>)
        requires
            self.well_formed(),
        ensures
            match found {
                Some(plan) => plan.well_formed() && exists|i: int|
                    0 <= i < self.plans().len() && (#[trigger] self.plans()[i]) == (
                        address@,
                        plan.model(),
                    ),
                None => !holds(self.plans(), address@),
            },
    {
        match self.position(address) {
            Some(index) => {
                let plan: &CompiledPlan = &self.entries[index].plan;
                assert(self.plans()[index as int] == (address@, plan.model()));
                Some(plan)
            },
            None => None,
        }
    }

    /// Offers a plan under its address. A plan that is already held under it
    /// stays; a new one joins where there is room.
    pub fn insert(&mut self, address: String, plan: CompiledPlan) -> (result: Result<
        (),
        PlanCacheError,
    >)
        requires
            old(self).well_formed(),
            plan.well_formed(),
        ensures
            final(self).well_formed(),
            final(self).limit() == old(self).limit(),
            joined(old(self).plans(), address@, plan.model()).len() <= old(self).limit() ==> {
                &&& result is Ok
                &&& final(self).plans() == joined(old(self).plans(), address@, plan.model())
            },
            joined(old(self).plans(), address@, plan.model()).len() > old(self).limit() ==> {
                &&& result == Err::<(), _>(PlanCacheError::Full { capacity: old(self).limit() })
                &&& final(self).plans() == old(self).plans()
            },
    {
        if self.position(address.as_str()).is_some() {
            return Ok(());
        }
        if self.entries.len() >= self.capacity {
            return Err(PlanCacheError::Full { capacity: self.capacity });
        }
        let ghost label = address@;
        let ghost model = plan.model();
        self.entries.push(CachedPlan { address, plan });
        proof {
            let before = old(self).plans();
            assert(self.plans() =~= before.push((label, model)));
            assert forall|i: int, j: int|
                #![trigger self.plans()[i], self.plans()[j]]
                0 <= i < j < self.plans().len() implies self.plans()[i].0 != self.plans()[j].0 by {
                assert(self.plans()[i] == before[i]);
                if j < before.len() {
                    assert(self.plans()[j] == before[j]);
                }
            }
        }
        Ok(())
    }

    /// Compiles a record stream and gives the address of the plan, under which
    /// the cache then holds a plan with the same segments. That is this plan,
    /// unless one that was compiled for another input length came before it
    /// under the same address: then the earlier one stays.
    pub fn get_or_compile(&mut self, records: &[u8], input_length: usize) -> (result: Result<
        String,
        PlanCacheError,
    >)
        requires
            old(self).well_formed(),
        ensures
            final(self).well_formed(),
            final(self).limit() == old(self).limit(),
            match compilation(records@, input_length as int) {
                Err(error) => {
                    &&& result is Err && result->Err_0 == PlanCacheError::Plan(error)
                    &&& final(self).plans() == old(self).plans()
                },
                Ok(model) => match json_address(plan_document(model.segments)) {
                    Err(failure) => {
                        &&& result matches Err(
                            PlanCacheError::Plan(ExecuteError::Identity(text)),
                        ) && text@ == failure
                        &&& final(self).plans() == old(self).plans()
                    },
                    Ok(label) => if joined(old(self).plans(), label, model).len()
                        <= old(self).limit() {
                        &&& result matches Ok(address) && address@ == label
                        &&& final(self).plans() == joined(old(self).plans(), label, model)
                    } else {
                        &&& result == Err::<String, _>(
                            PlanCacheError::Full { capacity: old(self).limit() },
                        )
                        &&& final(self).plans() == old(self).plans()
                    },
                },
            },
    {
        let plan: CompiledPlan = match compile_plan(records, input_length) {
            Ok(plan) => plan,
            Err(error) => return Err(PlanCacheError::Plan(error)),
        };
        let address: String = match plan.identity() {
            Ok(address) => address,
            Err(error) => return Err(PlanCacheError::Plan(error)),
        };
        let label = String::from_str(address.as_str());
        match self.insert(label, plan) {
            Ok(_) => Ok(address),
            Err(error) => Err(error),
        }
    }
}

/// What joined the plans is found under its address, and so is everything that
/// was held before: nothing is evicted.
pub proof fn joining_evicts_nothing(
    plans: Seq<(Seq<char>, PlanModel)>,
    address: Seq<char>,
    plan: PlanModel,
)
    ensures
        holds(joined(plans, address, plan), address),
        forall|i: int|
            0 <= i < plans.len() ==> #[trigger] joined(plans, address, plan)[i] == plans[i],
        joined(joined(plans, address, plan), address, plan) == joined(plans, address, plan),
{
    let after = joined(plans, address, plan);
    if !holds(plans, address) {
        assert(after[plans.len() as int].0 == address);
    }
}

} // verus!
