//! The lifecycle decisions of the watch daemon: which event ends serving,
//! and the idle-timeout bookkeeping that every request bumps. The serving
//! itself — sockets, signals, watchers — stays with the caller, which hands
//! these functions plain events and clock readings.

use vstd::prelude::*;

verus! {

/// The event that ended serving.
#[derive(Clone, Copy, Debug, PartialEq, Eq, Structural)]
pub enum ServeEvent {
    ServerEnded,
    WatcherEnded,
    ShutdownRequested,
    TimeoutElapsed,
    Interrupted,
}

/// Why the daemon closed.
#[derive(Clone, Copy, Debug, PartialEq, Eq, Structural)]
pub enum CloseReason {
    Timeout,
    Shutdown,
    WatcherClosed,
    ServerClosed,
    Interrupt,
}

/// The reason the daemon reports for the event that ended serving.
pub fn close_reason_for(event: ServeEvent) -> (r: CloseReason)
    ensures
        r == (match event {
            ServeEvent::ServerEnded => CloseReason::ServerClosed,
            ServeEvent::WatcherEnded => CloseReason::WatcherClosed,
            ServeEvent::ShutdownRequested => CloseReason::Shutdown,
            ServeEvent::TimeoutElapsed => CloseReason::Timeout,
            ServeEvent::Interrupted => CloseReason::Interrupt,
        }),
{
    match event {
        ServeEvent::ServerEnded => CloseReason::ServerClosed,
        ServeEvent::WatcherEnded => CloseReason::WatcherClosed,
        ServeEvent::ShutdownRequested => CloseReason::Shutdown,
        ServeEvent::TimeoutElapsed => CloseReason::Timeout,
        ServeEvent::Interrupted => CloseReason::Interrupt,
    }
}

/// The daemon's idle deadline: a fixed timeout from the most recent
/// request, in milliseconds.
#[derive(Clone, Copy, Debug, PartialEq, Eq, Structural)]
pub struct IdleTimeout {
    pub timeout_ms: u64,
    pub deadline_ms: u64,
}

/// The clock reading plus the timeout, capped at the largest representable
/// instant.
pub open spec fn deadline_after(now_ms: u64, timeout_ms: u64) -> u64 {
    if now_ms + timeout_ms <= u64::MAX {
        (now_ms + timeout_ms) as u64
    } else {
        u64::MAX
    }
}

impl IdleTimeout {
    /// A deadline one timeout away from now.
    pub fn new(now_ms: u64, timeout_ms: u64) -> (r: IdleTimeout)
        ensures
            r.timeout_ms == timeout_ms,
            r.deadline_ms == deadline_after(now_ms, timeout_ms),
    {
        IdleTimeout { timeout_ms, deadline_ms: saturating_add(now_ms, timeout_ms) }
    }

    /// A request arrived: push the deadline one timeout past now.
    pub fn bump(&mut self, now_ms: u64)
        ensures
            final(self).timeout_ms == old(self).timeout_ms,
            final(self).deadline_ms == deadline_after(now_ms, old(self).timeout_ms),
    {
        self.deadline_ms = saturating_add(now_ms, self.timeout_ms);
    }

    /// Whether the idle deadline has passed.
    pub fn is_expired(&self, now_ms: u64) -> (r: bool)
        ensures
            r == (now_ms >= self.deadline_ms),
    {
        now_ms >= self.deadline_ms
    }
}

/// The sum, capped at the largest value.
fn saturating_add(a: u64, b: u64) -> (r: u64)
    ensures
        r == deadline_after(a, b),
{
    if a <= u64::MAX - b {
        a + b
    } else {
        u64::MAX
    }
}

/// Whether a client's greeting is accepted: its version must equal the
/// daemon's own.
pub fn hello_accepted(client_version: &str, server_version: &str) -> (r: bool)
    ensures
        r == (client_version@ == server_version@),
{
    let a = crate::identifiers::to_chars(client_version);
    let b = crate::identifiers::to_chars(server_version);
    if a.len() != b.len() {
        proof {
            if client_version@ == server_version@ {
                assert(client_version@.len() == server_version@.len());
            }
        }
        return false;
    }
    let n = a.len();
    let mut i: usize = 0;
    while i < n
        invariant
            n == a@.len() == b@.len(),
            a@ == client_version@,
            b@ == server_version@,
            0 <= i <= n,
            forall|k: int| 0 <= k < i ==> a@[k] == b@[k],
        decreases n - i,
    {
        if a[i] != b[i] {
            proof {
                if client_version@ == server_version@ {
                    assert(client_version@[i as int] == server_version@[i as int]);
                }
            }
            return false;
        }
        i = i + 1;
    }
    proof {
        assert(client_version@ =~= server_version@);
    }
    true
}

} // verus!
