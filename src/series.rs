//! A bounded window of the most recent temperature readings.

use vstd::prelude::*;
use std::collections::VecDeque;

verus! {

/// How many readings a series keeps.
pub const TEMPS_LENGTH_CAP: usize = 60;

/// `s` after appending `v` and dropping the oldest readings beyond the capacity.
pub open spec fn pushed(s: Seq<i16>, v: i16) -> Seq<i16> {
    let t = s.push(v);
    if t.len() > TEMPS_LENGTH_CAP {
        t.subrange(t.len() - TEMPS_LENGTH_CAP, t.len() as int)
    } else {
        t
    }
}

/// `s` after pushing each of `vs` in turn.
pub open spec fn pushed_all(s: Seq<i16>, vs: Seq<i16>) -> Seq<i16>
    decreases vs.len(),
{
    if vs.len() == 0 {
        s
    } else {
        pushed(pushed_all(s, vs.drop_last()), vs.last())
    }
}

/// The last `TEMPS_LENGTH_CAP` elements of `s`, or all of them if there are fewer.
pub open spec fn newest(s: Seq<i16>) -> Seq<i16> {
    if s.len() > TEMPS_LENGTH_CAP {
        s.subrange(s.len() - TEMPS_LENGTH_CAP, s.len() as int)
    } else {
        s
    }
}

/// Temperature readings in tenths of a degree, oldest first, never more than
/// `TEMPS_LENGTH_CAP` of them.
pub struct RollingSeries {
    items: VecDeque<i16>,
}

impl View for RollingSeries {
    type V = Seq<i16>;

    closed spec fn view(&self) -> Seq<i16> {
        self.items@
    }
}

impl RollingSeries {
    /// A series never holds more than `TEMPS_LENGTH_CAP` readings.
    pub open spec fn wf(&self) -> bool {
        self@.len() <= TEMPS_LENGTH_CAP
    }

    pub fn new() -> (r: RollingSeries)
        ensures
            r@ == Seq::<i16>::empty(),
            r.wf(),
    {
        RollingSeries { items: VecDeque::new() }
    }

    pub fn len(&self) -> (r: usize)
        requires
            self.wf(),
        ensures
            r == self@.len(),
            r <= TEMPS_LENGTH_CAP,
    {
        self.items.len()
    }

    /// Appends `v`, evicting the oldest reading when the series is full.
    pub fn push(&mut self, v: i16)
        requires
            old(self).wf(),
        ensures
            final(self)@ == pushed(old(self)@, v),
            final(self).wf(),
    {
        self.items.push_back(v);
        if self.items.len() > TEMPS_LENGTH_CAP {
            self.items.pop_front();
        }
        assert(self.items@ =~= pushed(old(self)@, v));
    }

    /// A copy of the readings, oldest first.
    pub fn to_deque(&self) -> (r: VecDeque<i16>)
        ensures
            r@ == self@,
    {
        let mut r: VecDeque<i16> = VecDeque::new();
        let n = self.items.len();
        let mut i: usize = 0;
        while i < n
            invariant
                n == self.items@.len(),
                i <= n,
                r@ == self.items@.subrange(0, i as int),
            decreases n - i,
        {
            r.push_back(self.items[i]);
            i = i + 1;
            assert(r@ =~= self.items@.subrange(0, i as int));
        }
        assert(r@ =~= self.items@);
        r
    }
}

/// Pushing into a full series evicts exactly its oldest reading and keeps the
/// order of the others; a series never holds more than `TEMPS_LENGTH_CAP` readings.
pub proof fn lemma_push_evicts_oldest(s: Seq<i16>, v: i16)
    requires
        s.len() <= TEMPS_LENGTH_CAP,
    ensures
        pushed(s, v).len() <= TEMPS_LENGTH_CAP,
        s.len() < TEMPS_LENGTH_CAP ==> pushed(s, v) == s.push(v),
        s.len() == TEMPS_LENGTH_CAP ==> pushed(s, v) == s.drop_first().push(v),
{
    if s.len() == TEMPS_LENGTH_CAP {
        assert(pushed(s, v) =~= s.drop_first().push(v));
    }
}

/// After any number of pushes, a series holds the newest `TEMPS_LENGTH_CAP`
/// readings of everything pushed, in the order they came.
pub proof fn lemma_pushes_keep_newest(s: Seq<i16>, vs: Seq<i16>)
    requires
        s.len() <= TEMPS_LENGTH_CAP,
    ensures
        pushed_all(s, vs) == newest(s + vs),
        pushed_all(s, vs).len() <= TEMPS_LENGTH_CAP,
    decreases vs.len(),
{
    if vs.len() == 0 {
        assert(s + vs =~= s);
    } else {
        lemma_pushes_keep_newest(s, vs.drop_last());
        let p = s + vs.drop_last();
        assert(s + vs =~= p.push(vs.last()));
        assert(pushed(newest(p), vs.last()) =~= newest(p.push(vs.last())));
    }
}

} // verus!
