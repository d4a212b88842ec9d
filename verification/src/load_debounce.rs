//! Debouncing of track loads.
//!
//! Rapidly repeating Previous/Next would send a burst of loads to the player, each of which cancels
//! the one before while it is still being fetched. So a load waits a moment, and is made only if no
//! newer one was asked for meanwhile.
//!
//! All times are milliseconds of one clock that never goes back. Waiting and loading are the caller's.

use vstd::prelude::*;

verus! {

/// How long a load waits, after the most recent [`LoadDebouncer::dispatch`], in milliseconds.
pub const LOAD_DEBOUNCE: u64 = 150;

/// Debounces track loads: only the track the user actually lands on is loaded.
pub struct LoadDebouncer {
    /// Bumped by every dispatch; tells whether a later one has superseded an earlier one.
    generation: u64,
}

/// A load that was asked for.
#[derive(Clone, Copy, Debug, PartialEq, Eq, Structural)]
pub struct LoadTicket {
    /// The dispatch that asked for it, counted from one.
    pub generation: u64,
    /// The earliest time to make it.
    pub due: u64,
}

/// What to do about a load that was asked for.
#[derive(Clone, Copy, Debug, PartialEq, Eq, Structural)]
pub enum LoadStep {
    /// A newer dispatch has superseded it: forget it.
    Superseded,
    /// Ask again later.
    Wait,
    /// Load the track from its start and play it, have the player take note of it, and note it as
    /// played.
    Load,
}

impl View for LoadDebouncer {
    type V = u64;

    /// The number of dispatches so far.
    closed spec fn view(&self) -> u64 {
        self.generation
    }
}

/// The ticket of the next dispatch, after so many and at this time.
pub open spec fn next_ticket(dispatched: u64, now: u64) -> LoadTicket {
    LoadTicket { generation: (dispatched + 1) as u64, due: (now + LOAD_DEBOUNCE) as u64 }
}

/// What to do about the ticket, after so many dispatches and at this time.
pub open spec fn step_for(dispatched: u64, ticket: LoadTicket, now: u64) -> LoadStep {
    if dispatched != ticket.generation {
        LoadStep::Superseded
    } else if now < ticket.due {
        LoadStep::Wait
    } else {
        LoadStep::Load
    }
}

impl LoadDebouncer {
    /// A debouncer without any dispatch yet.
    pub fn new() -> (r: Self)
        ensures
            r@ == 0,
    {
        LoadDebouncer { generation: 0 }
    }

    /// The number of dispatches so far.
    pub fn dispatched(&self) -> (r: u64)
        ensures
            r == self@,
    {
        self.generation
    }

    /// Ask for a load. Returns the ticket to show to [`LoadDebouncer::check`] once it is due.
    pub fn dispatch(&mut self, now: u64) -> (ticket: LoadTicket)
        requires
            old(self)@ < u64::MAX,
            now + LOAD_DEBOUNCE <= u64::MAX,
        ensures
            ticket == next_ticket(old(self)@, now),
            final(self)@ == ticket.generation,
    {
        self.generation = self.generation + 1;
        LoadTicket { generation: self.generation, due: now + LOAD_DEBOUNCE }
    }

    /// Decide about a load that was asked for.
    pub fn check(&self, ticket: LoadTicket, now: u64) -> (r: LoadStep)
        ensures
            r == step_for(self@, ticket, now),
    {
        if self.generation != ticket.generation {
            LoadStep::Superseded
        } else if now < ticket.due {
            LoadStep::Wait
        } else {
            LoadStep::Load
        }
    }
}

// --- Laws ------------------------------------------------------------------------------------

/// The number of dispatches after one has been made at each of these times.
pub open spec fn after_dispatches(dispatched: u64, times: Seq<u64>) -> u64
    decreases times.len(),
{
    if times.len() == 0 {
        dispatched
    } else {
        next_ticket(after_dispatches(dispatched, times.drop_last()), times.last()).generation
    }
}

/// The ticket of the dispatch that was made at the time with this index.
pub open spec fn ticket_of(dispatched: u64, times: Seq<u64>, index: int) -> LoadTicket {
    next_ticket(after_dispatches(dispatched, times.take(index)), times[index])
}

/// Of any number of dispatches only the last one's load is ever made, and it is made from the moment on
/// that 150 milliseconds after that dispatch are over.
pub proof fn law_only_the_last_dispatch_loads(dispatched: u64, times: Seq<u64>, index: int, now: u64)
    requires
        0 <= index < times.len(),
        dispatched + times.len() <= u64::MAX,
        times[index] + 150 <= u64::MAX,
    ensures
        ({
            let step = step_for(after_dispatches(dispatched, times), ticket_of(dispatched, times, index), now);
            if index < times.len() - 1 {
                step == LoadStep::Superseded
            } else if now < times[index] + 150 {
                step == LoadStep::Wait
            } else {
                step == LoadStep::Load
            }
        }),
{
    lemma_dispatches_count(dispatched, times);
    lemma_dispatches_count(dispatched, times.take(index));
}

/// Every dispatch counts.
proof fn lemma_dispatches_count(dispatched: u64, times: Seq<u64>)
    requires
        dispatched + times.len() <= u64::MAX,
    ensures
        after_dispatches(dispatched, times) == dispatched + times.len(),
    decreases times.len(),
{
    if times.len() > 0 {
        lemma_dispatches_count(dispatched, times.drop_last());
    }
}

// --- Laws of the operations ------------------------------------------------------------------

/// Of two calls of [`LoadDebouncer::dispatch`] only the second one's ticket is ever loaded: [`LoadDebouncer::check`]
/// gives up the first at once, has the second wait for 150 milliseconds, and then has it loaded.
pub proof fn law_second_dispatch_supersedes_the_first(
    first: &mut LoadDebouncer,
    then: u64,
    a: LoadTicket,
    second: &mut LoadDebouncer,
    now: u64,
    b: LoadTicket,
    time: u64,
    r: LoadStep,
    s: LoadStep,
)
    requires
        call_ensures(LoadDebouncer::dispatch, (first, then), a),
        *old(second) == *final(first),
        call_ensures(LoadDebouncer::dispatch, (second, now), b),
        call_ensures(LoadDebouncer::check, (&*final(second), a, time), r),
        call_ensures(LoadDebouncer::check, (&*final(second), b, time), s),
        old(first)@ + 2 <= u64::MAX,
        now + 150 <= u64::MAX,
    ensures
        r == LoadStep::Superseded,
        s == (if time < now + 150 {
            LoadStep::Wait
        } else {
            LoadStep::Load
        }),
{
}

} // verus!
