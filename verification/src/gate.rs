//! The configuration write gate: a guarded counter that admits or rejects
//! an overwrite of a shared configuration file by a caller-supplied
//! timestamp, so that stale or duplicate writes arriving out of order are
//! refused.
//!
//! The write gate itself never touches the file system. The caller performs the
//! existence check and the write, and reports the write's result back; the
//! whole sequence (existence check, admission, write, completion) must run
//! under one exclusive critical section per gate.
use vstd::prelude::*;

verus! {

/// One of the four literal outcome tags of a gated write. None of them is
/// an error: every branch is a normal return value the caller branches on.
#[derive(Debug, Clone, Copy, PartialEq, Eq, Structural)]
pub enum WriteOutcome {
    /// The target configuration file does not exist; the write gate never creates one.
    NoExist,
    /// The supplied timestamp is not newer than the last accepted one.
    Time,
    /// The payload was written and the timestamp accepted.
    Success,
    /// The write was attempted and failed; gate state is unchanged.
    Failed,
}

impl WriteOutcome {
    /// The literal tag of this outcome, as handed to callers.
    pub fn tag(&self) -> (r: &'static str)
        ensures
            *self == WriteOutcome::NoExist ==> r@ == "no-exist"@,
            *self == WriteOutcome::Time ==> r@ == "time"@,
            *self == WriteOutcome::Success ==> r@ == "success"@,
            *self == WriteOutcome::Failed ==> r@ == "failed"@,
    {
        match self {
            WriteOutcome::NoExist => "no-exist",
            WriteOutcome::Time => "time",
            WriteOutcome::Success => "success",
            WriteOutcome::Failed => "failed",
        }
    }
}

/// The admission verdict, before any write is attempted.
#[derive(Debug, Clone, Copy, PartialEq, Eq, Structural)]
pub enum GateDecision {
    /// Return [`WriteOutcome::NoExist`]; do not write, do not touch the state.
    RejectNoExist,
    /// Return [`WriteOutcome::Time`]; do not write, do not touch the state.
    RejectStale,
    /// Attempt the write, then report its result through [`ConfigSyncGate::commit`].
    Proceed,
}

/// The admission rule, checked in order: a missing file is rejected first,
/// then a timestamp not strictly greater than the last accepted one.
pub open spec fn spec_decide(last: u64, config_exists: bool, timestamp: u64) -> GateDecision {
    if !config_exists {
        GateDecision::RejectNoExist
    } else if timestamp <= last {
        GateDecision::RejectStale
    } else {
        GateDecision::Proceed
    }
}

/// The whole gated write as one step: from the last accepted timestamp, the
/// file's existence, the caller's timestamp and the write's result (if one
/// is attempted) to the new last accepted timestamp and the outcome.
pub open spec fn spec_gate_step(
    last: u64,
    config_exists: bool,
    timestamp: u64,
    write_ok: bool,
) -> (u64, WriteOutcome) {
    match spec_decide(last, config_exists, timestamp) {
        GateDecision::RejectNoExist => (last, WriteOutcome::NoExist),
        GateDecision::RejectStale => (last, WriteOutcome::Time),
        GateDecision::Proceed => if write_ok {
            (timestamp, WriteOutcome::Success)
        } else {
            (last, WriteOutcome::Failed)
        },
    }
}

/// The monotonic-timestamp admission gate. One cell per process, created
/// once at start with no timestamp accepted yet; it is never persisted, so
/// a restarted process re-admits any timestamp greater than zero.
pub struct ConfigSyncGate {
    last: u64,
}

impl ConfigSyncGate {
    /// The greatest timestamp accepted so far; zero before any write succeeds.
    pub closed spec fn last_accepted(&self) -> u64 {
        self.last
    }

    /// A fresh gate: no timestamp accepted yet.
    pub fn new() -> (g: Self)
        ensures
            g.last_accepted() == 0,
    {
        ConfigSyncGate { last: 0 }
    }

    /// Admits or rejects a write for the given timestamp, given whether the
    /// target configuration file already exists. Reads the state only.
    pub fn decide(&self, config_exists: bool, timestamp: u64) -> (d: GateDecision)
        ensures
            d == spec_decide(self.last_accepted(), config_exists, timestamp),
    {
        if !config_exists {
            GateDecision::RejectNoExist
        } else if timestamp <= self.last {
            GateDecision::RejectStale
        } else {
            GateDecision::Proceed
        }
    }

    /// Completes an admitted write: on a successful write the timestamp is
    /// accepted; on a failed one the state is left unchanged, so the next
    /// write with the same or a higher timestamp may still succeed.
    pub fn commit(&mut self, timestamp: u64, write_ok: bool) -> (o: WriteOutcome)
        requires
            spec_decide(old(self).last_accepted(), true, timestamp) == GateDecision::Proceed,
        ensures
            (final(self).last_accepted(), o) == spec_gate_step(
                old(self).last_accepted(),
                true,
                timestamp,
                write_ok,
            ),
    {
        if write_ok {
            self.last = timestamp;
            WriteOutcome::Success
        } else {
            WriteOutcome::Failed
        }
    }
}

/// The write gate only ever advances: one step never lowers the accepted
/// timestamp, it raises it exactly when the outcome is `Success`, and
/// `Success` comes exactly when the file exists, the timestamp is strictly
/// newer, and the write itself succeeded.
pub proof fn lemma_gate_monotonic(last: u64, config_exists: bool, timestamp: u64, write_ok: bool)
    ensures
        spec_gate_step(last, config_exists, timestamp, write_ok).0 >= last,
        (spec_gate_step(last, config_exists, timestamp, write_ok).1 == WriteOutcome::Success)
            <==> (config_exists && timestamp > last && write_ok),
        spec_gate_step(last, config_exists, timestamp, write_ok).1 == WriteOutcome::Success
            ==> spec_gate_step(last, config_exists, timestamp, write_ok).0 == timestamp,
        spec_gate_step(last, config_exists, timestamp, write_ok).1 != WriteOutcome::Success
            ==> spec_gate_step(last, config_exists, timestamp, write_ok).0 == last,
        (spec_gate_step(last, config_exists, timestamp, write_ok).1 == WriteOutcome::NoExist)
            <==> !config_exists,
{
}

} // verus!
