//! Tests of the configuration write gate: admission by file existence and
//! by strictly increasing timestamps, and the literal outcome tags.
use oxlog::gate::{ConfigSyncGate, GateDecision, WriteOutcome};

/// Drives one whole gated write, with `write_ok` standing for the result of
/// the file write the caller would perform on `Proceed`.
fn gated_write(gate: &mut ConfigSyncGate, exists: bool, timestamp: u64, write_ok: bool) -> String {
    match gate.decide(exists, timestamp) {
        GateDecision::RejectNoExist => WriteOutcome::NoExist.tag().to_string(),
        GateDecision::RejectStale => WriteOutcome::Time.tag().to_string(),
        GateDecision::Proceed => gate.commit(timestamp, write_ok).tag().to_string(),
    }
}

#[test]
fn fresh_gate_accepts_then_rejects_duplicate_then_accepts_newer() {
    let mut gate = ConfigSyncGate::new();
    assert_eq!(gated_write(&mut gate, true, 5, true), "success");
    assert_eq!(gated_write(&mut gate, true, 5, true), "time");
    assert_eq!(gated_write(&mut gate, true, 6, true), "success");
}

#[test]
fn missing_file_is_rejected_whatever_the_timestamp() {
    let mut gate = ConfigSyncGate::new();
    assert_eq!(gated_write(&mut gate, false, 0, true), "no-exist");
    assert_eq!(gated_write(&mut gate, false, 1, true), "no-exist");
    assert_eq!(gated_write(&mut gate, false, u64::MAX, true), "no-exist");
    // the state is untouched: timestamp 1 is still admissible
    assert_eq!(gate.decide(true, 1), GateDecision::Proceed);
}

#[test]
fn stale_timestamp_is_rejected() {
    let mut gate = ConfigSyncGate::new();
    assert_eq!(gated_write(&mut gate, true, 10, true), "success");
    assert_eq!(gated_write(&mut gate, true, 9, true), "time");
    assert_eq!(gated_write(&mut gate, true, 10, true), "time");
    assert_eq!(gated_write(&mut gate, true, 11, true), "success");
}

#[test]
fn failed_write_leaves_state_unchanged() {
    let mut gate = ConfigSyncGate::new();
    assert_eq!(gated_write(&mut gate, true, 4, false), "failed");
    // the same timestamp may still succeed afterwards
    assert_eq!(gated_write(&mut gate, true, 4, true), "success");
    assert_eq!(gated_write(&mut gate, true, 4, true), "time");
}

#[test]
fn zero_timestamp_is_never_admitted_fresh() {
    let gate = ConfigSyncGate::new();
    assert_eq!(gate.decide(true, 0), GateDecision::RejectStale);
}

#[test]
fn outcome_tags_are_the_four_literals() {
    assert_eq!(WriteOutcome::NoExist.tag(), "no-exist");
    assert_eq!(WriteOutcome::Time.tag(), "time");
    assert_eq!(WriteOutcome::Success.tag(), "success");
    assert_eq!(WriteOutcome::Failed.tag(), "failed");
}
