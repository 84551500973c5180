//! Allocation counting. Every thread has one counter, which its measurements
//! share; outside a measurement an allocation changes nothing.
use vstd::prelude::*;

verus! {

/// What one thread's counter holds.
#[derive(Clone, Copy, Debug, PartialEq, Eq, Structural)]
pub struct AllocationCounter {
    pub tracking: bool,
    pub allocations: usize,
}

/// A measurement on a thread: it reads the counter of the thread, and the
/// counter stops when it ends.
pub struct TrackingGuard {}

/// What happens on a thread.
pub enum AllocationEvent {
    /// A measurement begins.
    Begun,
    /// Memory is allocated.
    Allocated,
    /// Memory is freed.
    Freed,
    /// A measurement ends.
    Ended,
}

impl AllocationCounter {
    /// The counter before any measurement.
    pub fn idle() -> (counter: Self)
        ensures
            counter == (AllocationCounter { tracking: false, allocations: 0 }),
    {
        AllocationCounter { tracking: false, allocations: 0 }
    }

    /// The counter after an event on its thread.
    pub open spec fn after(self, event: AllocationEvent) -> Self {
        match event {
            AllocationEvent::Begun => AllocationCounter { tracking: true, allocations: 0 },
            AllocationEvent::Allocated => if self.tracking && self.allocations < usize::MAX {
                AllocationCounter { tracking: true, allocations: (self.allocations + 1) as usize }
            } else {
                self
            },
            AllocationEvent::Freed => self,
            AllocationEvent::Ended => AllocationCounter {
                tracking: false,
                allocations: self.allocations,
            },
        }
    }

    /// Counts an allocation, if a measurement is running.
    pub fn record(&mut self)
        ensures
            *final(self) == old(self).after(AllocationEvent::Allocated),
    {
        if self.tracking && self.allocations < usize::MAX {
            self.allocations = self.allocations + 1;
        }
    }
}

/// Begins a measurement on the thread of this counter: counting is on and
/// starts from zero, for earlier measurements too.
pub fn track(counter: &mut AllocationCounter) -> (guard: TrackingGuard)
    ensures
        *final(counter) == old(counter).after(AllocationEvent::Begun),
{
    *counter = AllocationCounter { tracking: true, allocations: 0 };
    TrackingGuard {  }
}

impl TrackingGuard {
    /// The allocations on the thread of this counter since its latest
    /// measurement began.
    pub fn count(&self, counter: &AllocationCounter) -> (allocations: usize)
        ensures
            allocations == counter.allocations,
    {
        counter.allocations
    }

    /// Ends the measurement; the count stays readable.
    pub fn stop(&self, counter: &mut AllocationCounter)
        ensures
            *final(counter) == old(counter).after(AllocationEvent::Ended),
    {
        counter.tracking = false;
    }
}

/// The counter of a thread after these events, each with the thread it
/// happened on. What happens on another thread changes nothing.
pub open spec fn counter_of(events: Seq<(int, AllocationEvent)>, thread: int) -> AllocationCounter
    decreases events.len(),
{
    if events.len() == 0 {
        AllocationCounter { tracking: false, allocations: 0 }
    } else {
        let before = counter_of(events.drop_last(), thread);
        if events.last().0 == thread {
            before.after(events.last().1)
        } else {
            before
        }
    }
}

/// How many of the events are allocations on the thread.
pub open spec fn allocations_on(events: Seq<(int, AllocationEvent)>, thread: int) -> nat
    decreases events.len(),
{
    if events.len() == 0 {
        0
    } else {
        let before = allocations_on(events.drop_last(), thread);
        if events.last() == (thread, AllocationEvent::Allocated) {
            before + 1
        } else {
            before
        }
    }
}

/// Since the latest measurement of a thread began, and while none ended, its
/// counter holds the number of the thread's own allocations: nothing from
/// before, nothing from other threads, and freeing lowers nothing.
pub proof fn measurements_count_own_allocations(
    before: Seq<(int, AllocationEvent)>,
    since: Seq<(int, AllocationEvent)>,
    thread: int,
)
    requires
        forall|i: int|
            0 <= i < since.len() && (#[trigger] since[i]).0 == thread ==> since[i].1
                !is Begun && since[i].1 !is Ended,
        allocations_on(since, thread) <= usize::MAX,
    ensures
        counter_of(before + seq![(thread, AllocationEvent::Begun)] + since, thread) == (
        AllocationCounter {
            tracking: true,
            allocations: allocations_on(since, thread) as usize,
        }),
    decreases since.len(),
{
    let begun = before + seq![(thread, AllocationEvent::Begun)];
    let all = begun + since;
    if since.len() == 0 {
        assert(all =~= begun);
        assert(begun.last() == (thread, AllocationEvent::Begun));
    } else {
        assert(all.drop_last() =~= begun + since.drop_last());
        assert(all.last() == since.last());
        assert(since.last() == since[since.len() - 1]);
        assert forall|i: int|
            0 <= i < since.drop_last().len() && (#[trigger] since.drop_last()[i]).0
                == thread implies since.drop_last()[i].1 !is Begun && since.drop_last()[i].1
            !is Ended by {
            assert(since.drop_last()[i] == since[i]);
        }
        measurements_count_own_allocations(before, since.drop_last(), thread);
    }
}

} // verus!
