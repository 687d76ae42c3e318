//! A snapshot feed: one latest value that writers replace and readers follow.
//!
//! A reader is handed each value at most once and always the latest one, so it
//! may miss values that were replaced before it looked.

use vstd::prelude::*;

verus! {

/// The latest value of a feed, with the number of values published so far.
pub struct SnapshotFeed<T> {
    value: Option<T>,
    version: u64,
}

/// A reader's place in a feed: the number of the last value it was handed.
#[derive(Clone, Copy, Debug, PartialEq, Eq, Structural)]
pub struct FeedReader {
    pub seen: u64,
}

/// What a feed does after a refresh.
#[derive(Clone, Copy, Debug, PartialEq, Eq, Structural)]
pub enum RefreshStep {
    /// The new value was published; the next refresh is due after the
    /// interval.
    Published { next_in_ns: u128 },
    /// The refresh failed and the value stays; the refresh is tried again
    /// after half the interval.
    Retry { retry_in_ns: u128 },
}

impl<T> SnapshotFeed<T> {
    #[verifier::type_invariant]
    spec fn inv(self) -> bool {
        (self.version == 0) == (self.value is None)
    }

    /// The latest value, if one was published.
    pub closed spec fn latest(&self) -> Option<T> {
        self.value
    }

    /// How many values were published.
    pub closed spec fn version(&self) -> u64 {
        self.version
    }

    /// A feed on which nothing was published yet.
    pub fn new() -> (f: Self)
        ensures
            f.latest() is None,
            f.version() == 0,
    {
        SnapshotFeed { value: None, version: 0 }
    }

    /// A feed that holds a first value.
    pub fn from_value(value: T) -> (f: Self)
        ensures
            f.latest() == Some(value),
            f.version() == 1,
    {
        SnapshotFeed { value: Some(value), version: 1 }
    }

    /// States what holds of every feed: it has a value exactly when one was
    /// published.
    pub fn has_value_once_published(&self)
        ensures
            (self.version() == 0) == (self.latest() is None),
    {
        proof {
            use_type_invariant(&*self);
        }
    }

    /// How many values were published.
    pub fn published(&self) -> (n: u64)
        ensures
            n == self.version(),
    {
        self.version
    }

    /// Puts a value in place of the latest one.
    pub fn publish(&mut self, value: T)
        requires
            old(self).version() < u64::MAX,
        ensures
            final(self).latest() == Some(value),
            final(self).version() == old(self).version() + 1,
    {
        let v: u64 = self.version;
        *self = SnapshotFeed { value: Some(value), version: v + 1 };
    }

    /// The latest value, if one was published.
    pub fn value(&self) -> (r: Option<&T>)
        ensures
            match r {
                Some(v) => self.latest() == Some(*v),
                None => self.latest() is None,
            },
    {
        self.value.as_ref()
    }

    /// A reader that was handed nothing yet.
    pub fn subscribe(&self) -> (r: FeedReader)
        ensures
            r.seen == 0,
    {
        FeedReader { seen: 0 }
    }

    /// Hands the reader the latest value if the reader has not been handed it
    /// before, and moves the reader up to it.
    pub fn next(&self, reader: &mut FeedReader) -> (r: Option<&T>)
        ensures
            r is Some <==> old(reader).seen < self.version(),
            r matches Some(v) ==> self.latest() == Some(*v) && final(reader).seen == self.version(),
            r is None ==> *final(reader) == *old(reader),
    {
        proof {
            use_type_invariant(&*self);
        }
        if reader.seen < self.version {
            reader.seen = self.version;
            self.value.as_ref()
        } else {
            None
        }
    }

    /// Takes the outcome of a refresh: a new value is published and the next
    /// refresh is due after the interval; a failure leaves the feed as it was
    /// and the refresh is tried again after half the interval.
    pub fn apply_refresh<E>(&mut self, outcome: Result<T, E>, interval_ns: u128) -> (step: RefreshStep)
        requires
            old(self).version() < u64::MAX,
        ensures
            match outcome {
                Ok(value) => {
                    &&& step == (RefreshStep::Published { next_in_ns: interval_ns })
                    &&& final(self).latest() == Some(value)
                    &&& final(self).version() == old(self).version() + 1
                },
                Err(_) => {
                    &&& step == (RefreshStep::Retry { retry_in_ns: interval_ns / 2 })
                    &&& final(self).latest() == old(self).latest()
                    &&& final(self).version() == old(self).version()
                },
            },
    {
        match outcome {
            Ok(value) => {
                self.publish(value);
                RefreshStep::Published { next_in_ns: interval_ns }
            },
            Err(_) => RefreshStep::Retry { retry_in_ns: interval_ns / 2 },
        }
    }
}

/// The delay before a failed refresh is tried again: half the interval.
pub fn retry_delay_ns(interval_ns: u128) -> (d: u128)
    ensures
        d == interval_ns / 2,
{
    interval_ns / 2
}

} // verus!
