//! The decisions of the loop that keeps the display device fed: when to
//! (re)open the connection, when to write, and what to write.

use vstd::prelude::*;
use crate::slot::{Latest, Observer};

verus! {

/// Milliseconds to wait before reopening a failed connection.
pub const RECONNECT_BACKOFF_MS: u64 = 1000;

/// What the loop does next.
#[derive(Debug, Clone, Copy, PartialEq, Eq, Structural)]
pub enum LinkAction {
    /// Open the connection.
    Open,
    /// Wait this many milliseconds, then open the connection.
    Backoff(u64),
    /// Wait until the slot changes.
    WaitForChange,
    /// Serialise the slot's current value and write it.
    Send,
}

/// The loop's state: whether the connection is open, and what it has seen of
/// the slot.
#[derive(Debug, Clone, Copy, PartialEq, Eq, Structural)]
pub struct Link {
    pub connected: bool,
    pub observer: Observer,
}

/// The link `l` with its connection open (`ok`) or closed.
pub open spec fn with_connection(l: Link, ok: bool) -> Link {
    Link { connected: ok, observer: l.observer }
}

/// The link after looking at `slot`, the action, and the value to send.
pub open spec fn wake_result<T>(l: Link, slot: Latest<T>) -> (Link, LinkAction, Option<T>) {
    if !l.connected {
        (l, LinkAction::Open, None)
    } else if slot.version != l.observer.seen {
        (
            Link { connected: true, observer: Observer { seen: slot.version } },
            LinkAction::Send,
            Some(slot.value),
        )
    } else {
        (l, LinkAction::WaitForChange, None)
    }
}

impl Link {
    /// A closed link that has seen `slot` as it is now.
    pub fn new<T>(slot: &Latest<T>) -> (r: Link)
        ensures
            !r.connected,
            r.observer.seen == slot.version,
    {
        Link { connected: false, observer: slot.subscribe() }
    }

    /// Takes the outcome of opening the connection.
    pub fn on_open(&mut self, ok: bool) -> (r: LinkAction)
        ensures
            *final(self) == with_connection(*old(self), ok),
            r == (if ok {
                LinkAction::WaitForChange
            } else {
                LinkAction::Backoff(RECONNECT_BACKOFF_MS)
            }),
    {
        self.connected = ok;
        if ok {
            LinkAction::WaitForChange
        } else {
            LinkAction::Backoff(RECONNECT_BACKOFF_MS)
        }
    }

    /// Looks at the slot: when it changed since last seen and the connection
    /// is open, the current value is to be sent, and is now seen.
    pub fn on_wake<'a, T>(&mut self, slot: &'a Latest<T>) -> (r: (LinkAction, Option<&'a T>))
        ensures
            *final(self) == wake_result(*old(self), *slot).0,
            r.0 == wake_result(*old(self), *slot).1,
            r.1 is None <==> wake_result(*old(self), *slot).2 is None,
            r.1 matches Some(x) ==> wake_result(*old(self), *slot).2 == Some(*x),
    {
        if !self.connected {
            (LinkAction::Open, None)
        } else if self.observer.has_changed(slot) {
            let v = self.observer.observe(slot);
            (LinkAction::Send, Some(v))
        } else {
            (LinkAction::WaitForChange, None)
        }
    }

    /// Takes the outcome of writing and flushing a record: a failure closes
    /// the connection and asks for a reopen after the backoff.
    pub fn on_written(&mut self, ok: bool) -> (r: LinkAction)
        ensures
            *final(self) == with_connection(*old(self), ok),
            r == (if ok {
                LinkAction::WaitForChange
            } else {
                LinkAction::Backoff(RECONNECT_BACKOFF_MS)
            }),
    {
        self.connected = ok;
        if ok {
            LinkAction::WaitForChange
        } else {
            LinkAction::Backoff(RECONNECT_BACKOFF_MS)
        }
    }
}

/// The record for one update: the serialised snapshot and a line feed.
pub fn frame(body: Vec<u8>) -> (r: Vec<u8>)
    ensures
        r@ == body@.push(10u8),
{
    let mut r = body;
    r.push(10u8);
    r
}

/// After a failed write and a successful reopen, the first record to be
/// written is the slot's value at that moment, whatever was published while
/// the connection was down; none is written only if nothing was published
/// since the link last looked.
pub proof fn lemma_reconnect_sends_current<T>(l: Link, slot: Latest<T>)
    ensures
        ({
            let reopened = with_connection(with_connection(l, false), true);
            wake_result(reopened, slot).2 == if slot.version != l.observer.seen {
                Some(slot.value)
            } else {
                None
            }
        }),
{
}

} // verus!
