//! A single-slot, last-write-wins channel: the newest value replaces the one
//! before it, and each observer can tell whether it changed since it last looked.

use vstd::prelude::*;

verus! {

/// The slot: its current value and how many values have been published into it.
pub struct Latest<T> {
    pub value: T,
    pub version: u64,
}

/// One consumer's record of the version it last observed.
#[derive(Debug, Clone, Copy, PartialEq, Eq, Structural)]
pub struct Observer {
    pub seen: u64,
}

/// The slot `s` after each of `vs` is published in turn.
pub open spec fn published_all<T>(s: Latest<T>, vs: Seq<T>) -> Latest<T>
    decreases vs.len(),
{
    if vs.len() == 0 {
        s
    } else {
        let p = published_all(s, vs.drop_last());
        Latest { value: vs.last(), version: (p.version + 1) as u64 }
    }
}

impl<T> Latest<T> {
    pub fn new(initial: T) -> (r: Latest<T>)
        ensures
            r.value == initial,
            r.version == 0,
    {
        Latest { value: initial, version: 0 }
    }

    /// Replaces the value; it never waits and never queues.
    pub fn publish(&mut self, v: T)
        requires
            old(self).version < u64::MAX,
        ensures
            final(self).value == v,
            final(self).version == old(self).version + 1,
    {
        self.value = v;
        self.version = self.version + 1;
    }

    /// The observer of this slot that has seen its current value.
    pub fn subscribe(&self) -> (r: Observer)
        ensures
            r.seen == self.version,
    {
        Observer { seen: self.version }
    }
}

impl Observer {
    /// Whether `slot` was published into since this observer last looked.
    pub fn has_changed<T>(&self, slot: &Latest<T>) -> (r: bool)
        ensures
            r == (slot.version != self.seen),
    {
        slot.version != self.seen
    }

    /// The current value of `slot`, which this observer has now seen.
    pub fn observe<'a, T>(&mut self, slot: &'a Latest<T>) -> (r: &'a T)
        ensures
            *r == slot.value,
            final(self).seen == slot.version,
    {
        self.seen = slot.version;
        &slot.value
    }
}

/// Publishing several values before a consumer looks leaves one change to see,
/// and it is the last value published: the others are gone, not queued.
pub proof fn lemma_coalescing<T>(s: Latest<T>, o: Observer, vs: Seq<T>)
    requires
        o.seen == s.version,
        s.version + vs.len() <= u64::MAX,
    ensures
        vs.len() == 0 ==> published_all(s, vs).version == o.seen,
        vs.len() > 0 ==> published_all(s, vs).value == vs.last() && published_all(
            s,
            vs,
        ).version != o.seen,
        published_all(s, vs).version == s.version + vs.len(),
    decreases vs.len(),
{
    if vs.len() > 0 {
        lemma_coalescing(s, o, vs.drop_last());
    }
}

} // verus!
