//! Gathering per-location results: fetches are started in location order
//! within a bounded window, may complete in any order, and end up in location
//! order. One failure fails the whole run.

use vstd::prelude::*;

verus! {

/// The window used where nothing else is asked for.
pub const DEFAULT_WINDOW: usize = 8;

/// Where the fetch of one location stands.
#[derive(Debug, Clone, PartialEq, Eq)]
pub enum Slot<T> {
    /// Not started yet.
    Waiting,
    /// Started and not yet completed.
    InFlight,
    /// Completed with this value.
    Done(T),
    /// Completed with an error.
    Failed,
}

/// What to do next.
#[derive(Debug, Clone, Copy, PartialEq, Eq, Structural)]
pub enum Step {
    /// Start the fetch of the location with this index.
    Start(usize),
    /// Wait for a fetch in flight to complete.
    Wait,
    /// Nothing is left to do: take the result.
    Finish,
}

/// The state of one pass over the locations, as plain values.
pub ghost struct GatherView<T, E> {
    /// The most fetches that may be in flight at once.
    pub limit: nat,
    /// Where each location stands, by location index.
    pub slots: Seq<Slot<T>>,
    /// The first failure that was reported, if any.
    pub failure: Option<E>,
}

/// One pass over the locations.
pub struct Gather<T, E> {
    limit: usize,
    slots: Vec<Slot<T>>,
    started: usize,
    in_flight: usize,
    failure: Option<E>,
}

/// How many fetches are in flight.
pub open spec fn in_flight_count<T>(slots: Seq<Slot<T>>) -> nat
    decreases slots.len(),
{
    if slots.len() == 0 {
        0
    } else {
        in_flight_count(slots.drop_last()) + if slots.last() is InFlight {
            1nat
        } else {
            0nat
        }
    }
}

/// Whether the location at `index` is the first that has not been started.
pub open spec fn first_waiting<T>(slots: Seq<Slot<T>>, index: int) -> bool {
    &&& 0 <= index < slots.len()
    &&& slots[index] is Waiting
    &&& forall|j: int| 0 <= j < index ==> !(#[trigger] slots[j] is Waiting)
}

/// Whether some location has not been started.
pub open spec fn any_waiting<T>(slots: Seq<Slot<T>>) -> bool {
    exists|j: int| 0 <= j < slots.len() && #[trigger] slots[j] is Waiting
}

/// Whether every location has completed with a value.
pub open spec fn all_done<T>(slots: Seq<Slot<T>>) -> bool {
    forall|j: int| 0 <= j < slots.len() ==> #[trigger] slots[j] is Done
}

/// Whether a fetch may be started: nothing has failed, a location is left,
/// and the window has room.
pub open spec fn may_start<T, E>(state: GatherView<T, E>) -> bool {
    &&& state.failure is None
    &&& any_waiting(state.slots)
    &&& in_flight_count(state.slots) < state.limit
}

/// The state after the fetch of the location at `index` was started.
pub open spec fn after_start<T, E>(state: GatherView<T, E>, index: int) -> GatherView<T, E> {
    GatherView { slots: state.slots.update(index, Slot::InFlight), ..state }
}

/// Whether a completion for the location at `index` is expected.
pub open spec fn expects<T, E>(state: GatherView<T, E>, index: int) -> bool {
    0 <= index < state.slots.len() && state.slots[index] is InFlight
}

/// The state after the fetch of the location at `index` completed. A value
/// goes to the location's slot. An error is kept if it is the first.
pub open spec fn after_completion<T, E>(
    state: GatherView<T, E>,
    index: int,
    outcome: Result<T, E>,
) -> GatherView<T, E> {
    if !expects(state, index) {
        state
    } else {
        match outcome {
            Ok(value) => GatherView { slots: state.slots.update(index, Slot::Done(value)), ..state },
            Err(error) => GatherView {
                slots: state.slots.update(index, Slot::Failed),
                failure: if state.failure is None {
                    Some(error)
                } else {
                    state.failure
                },
                ..state
            },
        }
    }
}

/// The result of a pass: the first failure where there was one, the values
/// in location order where every location completed with one, and nothing
/// before that.
pub open spec fn outcome_of<T, E>(state: GatherView<T, E>) -> Option<Result<Seq<T>, E>> {
    if state.failure is Some {
        Some(Err(state.failure->0))
    } else if all_done(state.slots) {
        Some(Ok(Seq::new(state.slots.len(), |i: int| state.slots[i]->Done_0)))
    } else {
        None
    }
}

proof fn lemma_count_update<T>(slots: Seq<Slot<T>>, index: int, slot: Slot<T>)
    requires
        0 <= index < slots.len(),
    ensures
        in_flight_count(slots.update(index, slot)) + (if slots[index] is InFlight {
            1nat
        } else {
            0nat
        }) == in_flight_count(slots) + (if slot is InFlight {
            1nat
        } else {
            0nat
        }),
    decreases slots.len(),
{
    let updated = slots.update(index, slot);
    if index == slots.len() - 1 {
        assert(updated.drop_last() =~= slots.drop_last());
    } else {
        assert(updated.drop_last() =~= slots.drop_last().update(index, slot));
        lemma_count_update(slots.drop_last(), index, slot);
    }
}

proof fn lemma_count_bounds<T>(slots: Seq<Slot<T>>)
    ensures
        in_flight_count(slots) <= slots.len(),
        in_flight_count(slots) == 0 <==> forall|j: int|
            0 <= j < slots.len() ==> !(#[trigger] slots[j] is InFlight),
    decreases slots.len(),
{
    if slots.len() > 0 {
        let front = slots.drop_last();
        lemma_count_bounds(front);
        if in_flight_count(slots) == 0 {
            assert forall|j: int| 0 <= j < slots.len() implies !(#[trigger] slots[j]
                is InFlight) by {
                if j < front.len() {
                    assert(front[j] == slots[j]);
                }
            }
        } else if in_flight_count(front) == 0 {
            assert(slots[slots.len() - 1] is InFlight);
        } else {
            let j = choose|j: int| 0 <= j < front.len() && #[trigger] front[j] is InFlight;
            assert(slots[j] is InFlight);
        }
    }
}

impl<T, E> View for Gather<T, E> {
    type V = GatherView<T, E>;

    closed spec fn view(&self) -> GatherView<T, E> {
        GatherView { limit: self.limit as nat, slots: self.slots@, failure: self.failure }
    }
}

impl<T, E> Gather<T, E> {
    /// Whether the state is one that a pass can be in: the window is not
    /// exceeded, locations are started in order, and a failed location means
    /// a failure was kept.
    pub closed spec fn wf(&self) -> bool {
        &&& self.limit >= 1
        &&& self.started <= self.slots.len()
        &&& self.in_flight == in_flight_count(self.slots@)
        &&& self.in_flight <= self.limit
        &&& forall|j: int|
            0 <= j < self.slots.len() ==> (#[trigger] self.slots@[j] is Waiting <==> j
                >= self.started)
        &&& self.failure is None ==> forall|j: int|
            0 <= j < self.slots.len() ==> !(#[trigger] self.slots@[j] is Failed)
    }

    /// A pass over `total` locations with at most `limit` fetches in flight.
    pub fn new(total: usize, limit: usize) -> (gather: Self)
        requires
            limit >= 1,
        ensures
            gather.wf(),
            gather@.limit == limit,
            gather@.failure is None,
            gather@.slots == Seq::new(total as nat, |i: int| Slot::<T>::Waiting),
    {
        let mut slots: Vec<Slot<T>> = Vec::new();
        let mut i: usize = 0;
        while i < total
            invariant
                i <= total,
                slots.len() == i,
                forall|j: int| 0 <= j < i ==> #[trigger] slots@[j] is Waiting,
                in_flight_count(slots@) == 0,
            decreases total - i,
        {
            proof {
                assert(slots@.push(Slot::Waiting).drop_last() =~= slots@);
            }
            slots.push(Slot::Waiting);
            i += 1;
        }
        proof {
            assert(slots@ =~= Seq::new(total as nat, |i: int| Slot::<T>::Waiting));
        }
        Gather { limit, slots, started: 0, in_flight: 0, failure: None }
    }

    /// The next thing to do. A fetch is started, in location order, while
    /// nothing has failed and the window has room; otherwise a completion is
    /// waited for while any is outstanding. After a failure nothing more is
    /// started or waited for.
    pub fn next_step(&mut self) -> (step: Step)
        requires
            old(self).wf(),
        ensures
            final(self).wf(),
            match step {
                Step::Start(index) => {
                    &&& may_start(old(self)@)
                    &&& first_waiting(old(self)@.slots, index as int)
                    &&& final(self)@ == after_start(old(self)@, index as int)
                },
                Step::Wait => {
                    &&& old(self)@.failure is None
                    &&& !may_start(old(self)@)
                    &&& in_flight_count(old(self)@.slots) > 0
                    &&& final(self)@ == old(self)@
                },
                Step::Finish => {
                    &&& outcome_of(old(self)@) is Some
                    &&& final(self)@ == old(self)@
                },
            },
            in_flight_count(final(self)@.slots) <= final(self)@.limit,
    {
        proof {
            lemma_count_bounds(self.slots@);
        }
        if self.failure.is_some() {
            Step::Finish
        } else if self.started < self.slots.len() && self.in_flight < self.limit {
            let index: usize = self.started;
            proof {
                lemma_count_update(self.slots@, index as int, Slot::InFlight);
                assert(self.slots@[index as int] is Waiting);
            }
            self.slots.set(index, Slot::InFlight);
            self.started = index + 1;
            self.in_flight = self.in_flight + 1;
            Step::Start(index)
        } else if self.in_flight > 0 {
            proof {
                if self.started >= self.slots.len() {
                    assert(!any_waiting(self.slots@));
                }
            }
            Step::Wait
        } else {
            proof {
                assert forall|j: int| 0 <= j < self.slots.len() implies #[trigger] self.slots@[j]
                    is Done by {
                    assert(!(self.slots@[j] is Waiting));
                    assert(!(self.slots@[j] is InFlight));
                    assert(!(self.slots@[j] is Failed));
                }
            }
            Step::Finish
        }
    }

    /// Takes in the completion of the fetch of the location at `index`.
    /// Returns whether it was expected; one that was not changes nothing.
    pub fn complete(&mut self, index: usize, outcome: Result<T, E>) -> (accepted: bool)
        requires
            old(self).wf(),
        ensures
            final(self).wf(),
            accepted == expects(old(self)@, index as int),
            final(self)@ == after_completion(old(self)@, index as int, outcome),
    {
        if index >= self.slots.len() {
            return false;
        }
        let expected = match &self.slots[index] {
            Slot::InFlight => true,
            _ => false,
        };
        if !expected {
            return false;
        }
        proof {
            lemma_count_bounds(self.slots@);
        }
        match outcome {
            Ok(value) => {
                proof {
                    lemma_count_update(self.slots@, index as int, Slot::Done(value));
                }
                self.slots.set(index, Slot::Done(value));
            },
            Err(error) => {
                proof {
                    lemma_count_update(self.slots@, index as int, Slot::Failed);
                }
                self.slots.set(index, Slot::Failed);
                if self.failure.is_none() {
                    self.failure = Some(error);
                }
            },
        }
        self.in_flight = self.in_flight - 1;
        true
    }

    /// How many fetches are in flight.
    pub fn in_flight(&self) -> (count: usize)
        requires
            self.wf(),
        ensures
            count == in_flight_count(self@.slots),
            count <= self@.limit,
    {
        self.in_flight
    }

    /// The result of the pass: the first failure where there was one,
    /// whatever else completed; the values in location order where every
    /// location completed with one; nothing while fetches are outstanding.
    pub fn into_result(self) -> (result: Option<Result<Vec<T>, E>>)
        requires
            self.wf(),
        ensures
            match result {
                None => outcome_of(self@) is None,
                Some(Err(error)) => outcome_of(self@) == Some(Err::<Seq<T>, E>(error)),
                Some(Ok(items)) => outcome_of(self@) == Some(Ok::<Seq<T>, E>(items@)),
            },
    {
        let ghost state = self@;
        let Gather { limit: _, slots, started: _, in_flight: _, failure } = self;
        if let Some(error) = failure {
            return Some(Err(error));
        }
        let mut slots = slots;
        let ghost all = slots@;
        let mut reversed: Vec<T> = Vec::new();
        let mut complete: bool = true;
        while slots.len() > 0
            invariant
                slots@.len() <= all.len(),
                slots@ == all.take(slots@.len() as int),
                complete ==> reversed@.len() + slots@.len() == all.len(),
                complete ==> forall|j: int|
                    slots@.len() <= j < all.len() ==> all[j] == Slot::Done(
                        #[trigger] reversed@[all.len() - 1 - j],
                    ),
                !complete ==> !all_done(all),
            decreases slots@.len(),
        {
            let ghost at = slots@.len() - 1;
            match slots.pop() {
                Some(Slot::Done(value)) => {
                    if complete {
                        reversed.push(value);
                    }
                },
                _ => {
                    proof {
                        assert(!(all[at] is Done));
                    }
                    complete = false;
                },
            }
            proof {
                assert(slots@ =~= all.take(at));
            }
        }
        if !complete {
            return None;
        }
        let ghost backwards = reversed@;
        let mut items: Vec<T> = Vec::new();
        while reversed.len() > 0
            invariant
                reversed@.len() <= backwards.len(),
                reversed@ == backwards.take(reversed@.len() as int),
                items@.len() + reversed@.len() == backwards.len(),
                forall|j: int|
                    0 <= j < items@.len() ==> #[trigger] items@[j] == backwards[backwards.len() - 1
                        - j],
            decreases reversed@.len(),
        {
            let ghost at = reversed@.len() - 1;
            let value = reversed.pop().unwrap();
            items.push(value);
            proof {
                assert(reversed@ =~= backwards.take(at));
            }
        }
        proof {
            assert(all_done(all)) by {
                assert forall|j: int| 0 <= j < all.len() implies #[trigger] all[j] is Done by {
                    assert(all[j] == Slot::Done(backwards[all.len() - 1 - j]));
                }
            }
            assert(items@ =~= Seq::new(all.len(), |i: int| all[i]->Done_0)) by {
                assert forall|j: int| 0 <= j < all.len() implies items@[j] == all[j]->Done_0 by {
                    assert(all[j] == Slot::Done(backwards[all.len() - 1 - j]));
                }
            }
        }
        Some(Ok(items))
    }
}

/// In every state of a pass the fetches in flight are no more than the window.
pub proof fn lemma_window_respected<T, E>(gather: Gather<T, E>)
    requires
        gather.wf(),
    ensures
        in_flight_count(gather@.slots) <= gather@.limit,
{
}

/// Completions of different locations can come in either order: where each
/// value ends up, and whether the run fails, is the same. Only which of two
/// errors is reported depends on which came first.
pub proof fn lemma_completion_order_free<T, E>(
    state: GatherView<T, E>,
    i: int,
    first: Result<T, E>,
    j: int,
    second: Result<T, E>,
)
    requires
        i != j,
    ensures
        after_completion(after_completion(state, i, first), j, second).slots == after_completion(
            after_completion(state, j, second),
            i,
            first,
        ).slots,
        after_completion(after_completion(state, i, first), j, second).failure is Some
            <==> after_completion(after_completion(state, j, second), i, first).failure is Some,
        first is Ok || second is Ok || state.failure is Some || !expects(state, i) || !expects(
            state,
            j,
        ) ==> after_completion(after_completion(state, i, first), j, second) == after_completion(
            after_completion(state, j, second),
            i,
            first,
        ),
{
    let one = after_completion(after_completion(state, i, first), j, second);
    let other = after_completion(after_completion(state, j, second), i, first);
    assert(one.slots =~= other.slots);
}

/// The values of a finished pass stand in location order: the value at each
/// position is the one that the location with that index completed with.
pub proof fn lemma_result_in_location_order<T, E>(state: GatherView<T, E>, items: Seq<T>)
    requires
        outcome_of(state) == Some(Ok::<Seq<T>, E>(items)),
    ensures
        state.failure is None,
        items.len() == state.slots.len(),
        forall|i: int| 0 <= i < items.len() ==> #[trigger] state.slots[i] == Slot::Done(items[i]),
{
    assert forall|i: int| 0 <= i < items.len() implies #[trigger] state.slots[i] == Slot::Done(
        items[i],
    ) by {
        assert(state.slots[i] is Done);
    }
}

/// One failure fails the run: from the completion that reports an error on,
/// the result is that first error, whatever the other locations complete
/// with and however many of them already have.
pub proof fn lemma_failure_is_final<T, E>(
    state: GatherView<T, E>,
    index: int,
    outcome: Result<T, E>,
)
    requires
        state.failure is Some,
    ensures
        outcome_of(state) == Some(Err::<Seq<T>, E>(state.failure->0)),
        outcome_of(after_completion(state, index, outcome)) == outcome_of(state),
        outcome_of(after_start(state, index)) == outcome_of(state),
        !may_start(state),
{
}

/// An expected completion that reports an error makes the result an error
/// at once, and it is that error unless one was reported before.
pub proof fn lemma_error_fails_run<T, E>(state: GatherView<T, E>, index: int, error: E)
    requires
        expects(state, index),
    ensures
        outcome_of(after_completion(state, index, Err(error))) is Some,
        outcome_of(after_completion(state, index, Err(error)))->0 is Err,
        state.failure is None ==> outcome_of(after_completion(state, index, Err(error))) == Some(
            Err::<Seq<T>, E>(error),
        ),
{
}

} // verus!
