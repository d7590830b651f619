//! Timing events and the sink that collects them.

use std::time::Duration;
use tokio::time::Instant;
use vstd::prelude::*;

verus! {

/// A reading of tokio's monotonic clock. Verus sees nothing inside it.
#[verifier::external_type_specification]
#[verifier::external_body]
pub struct ExInstant(tokio::time::Instant);

/// `tokio::time::Instant::now` reads the clock. It always returns; nothing is
/// claimed of the reading.
pub assume_specification[ tokio::time::Instant::now ]() -> (now: Instant);

/// `tokio::time::Instant::elapsed` measures the time since the reading was
/// taken, and gives zero where the clock has not moved past it. It always
/// returns; nothing is claimed of the length measured.
pub assume_specification[ tokio::time::Instant::elapsed ](start: &Instant) -> (elapsed: Duration);

/// The operations of a store, one for each method of its interface.
#[derive(Clone, Copy, Debug, PartialEq, Eq, Structural)]
pub enum Operation {
    Insert,
    InsertMany,
    HashRange,
    Range,
    RangeWithValues,
    FullRange,
    Middle,
    Count,
    First,
    Last,
    FirstAndLast,
    Len,
    IsEmpty,
    ValueForKey,
    KeysWithMissingValues,
}

impl Operation {
    /// The fixed name under which the operation's timings are reported.
    pub open spec fn name_spec(self) -> Seq<char> {
        match self {
            Operation::Insert => "insert"@,
            Operation::InsertMany => "insert_many"@,
            Operation::HashRange => "hash_range"@,
            Operation::Range => "range"@,
            Operation::RangeWithValues => "range_with_values"@,
            Operation::FullRange => "full_range"@,
            Operation::Middle => "middle"@,
            Operation::Count => "count"@,
            Operation::First => "first"@,
            Operation::Last => "last"@,
            Operation::FirstAndLast => "first_and_last"@,
            Operation::Len => "len"@,
            Operation::IsEmpty => "is_empty"@,
            Operation::ValueForKey => "value_for_key"@,
            Operation::KeysWithMissingValues => "keys_with_missing_values"@,
        }
    }

    /// The fixed name under which the operation's timings are reported.
    pub fn name(self) -> (name: &'static str)
        ensures
            name@ == self.name_spec(),
    {
        match self {
            Operation::Insert => "insert",
            Operation::InsertMany => "insert_many",
            Operation::HashRange => "hash_range",
            Operation::Range => "range",
            Operation::RangeWithValues => "range_with_values",
            Operation::FullRange => "full_range",
            Operation::Middle => "middle",
            Operation::Count => "count",
            Operation::First => "first",
            Operation::Last => "last",
            Operation::FirstAndLast => "first_and_last",
            Operation::Len => "len",
            Operation::IsEmpty => "is_empty",
            Operation::ValueForKey => "value_for_key",
            Operation::KeysWithMissingValues => "keys_with_missing_values",
        }
    }
}

/// No two operations share a name, so the name on a timing event tells
/// which operation was timed.
pub proof fn lemma_names_differ(a: Operation, b: Operation)
    requires
        a != b,
    ensures
        a.name_spec() != b.name_spec(),
{
    reveal_strlit("insert");
    reveal_strlit("insert_many");
    reveal_strlit("hash_range");
    reveal_strlit("range");
    reveal_strlit("range_with_values");
    reveal_strlit("full_range");
    reveal_strlit("middle");
    reveal_strlit("count");
    reveal_strlit("first");
    reveal_strlit("last");
    reveal_strlit("first_and_last");
    reveal_strlit("len");
    reveal_strlit("is_empty");
    reveal_strlit("value_for_key");
    reveal_strlit("keys_with_missing_values");
    assert(a.name_spec().len() != b.name_spec().len() || a.name_spec()[0] != b.name_spec()[0]);
}

/// One timing event: how long one call of a store operation took.
#[derive(Clone, Copy, Debug)]
pub struct StoreQuery {
    /// The operation's fixed name.
    pub name: &'static str,
    /// The time from just before the call to just after it.
    pub duration: Duration,
}

/// The sink for timing events. It keeps them in the order of arrival until
/// they are taken out.
#[derive(Debug)]
pub struct Metrics {
    events: Vec<StoreQuery>,
}

impl View for Metrics {
    type V = Seq<StoreQuery>;

    closed spec fn view(&self) -> Seq<StoreQuery> {
        self.events@
    }
}

impl Metrics {
    /// A sink that holds no event.
    pub fn new() -> (metrics: Self)
        ensures
            metrics@ == Seq::<StoreQuery>::empty(),
    {
        Metrics { events: Vec::new() }
    }

    /// Appends one event.
    pub fn record(&mut self, event: &StoreQuery)
        ensures
            final(self)@ == old(self)@.push(*event),
    {
        self.events.push(*event);
    }

    /// The events recorded so far, oldest first.
    pub fn events(&self) -> (events: &Vec<StoreQuery>)
        ensures
            events@ == self@,
    {
        &self.events
    }

    /// Takes the recorded events out, oldest first, and leaves the sink
    /// empty.
    pub fn take(&mut self) -> (events: Vec<StoreQuery>)
        ensures
            events@ == old(self)@,
            final(self)@ == Seq::<StoreQuery>::empty(),
    {
        let mut events: Vec<StoreQuery> = Vec::new();
        std::mem::swap(&mut self.events, &mut events);
        events
    }
}

} // verus!
