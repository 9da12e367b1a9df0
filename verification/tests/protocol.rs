use zkcat::{
    check_commitment, compute_commitment, host_cross_check, redacted_text, text_digest, Commitment,
    ConsistencyError,
};

const SENTINEL: &str = "***REDACTED***";

#[test]
fn scenario_single_line_redaction() {
    let content = "alpha\nbeta\ngamma";
    let indices: Vec<usize> = vec![1];
    let red = redacted_text(content, &indices);
    assert_eq!(red, "alpha\n***REDACTED***\ngamma");
    let c = compute_commitment(content, &indices);
    assert!(c.full.equals(&text_digest(content)));
    assert!(c.redacted.equals(&text_digest("alpha\n***REDACTED***\ngamma")));
    assert_eq!(c.indices, vec![1]);
}

#[test]
fn scenario_out_of_range_index_echoed() {
    let content = "alpha\nbeta\ngamma";
    let indices: Vec<usize> = vec![5];
    let c = compute_commitment(content, &indices);
    assert!(c.redacted.equals(&c.full));
    assert_eq!(c.indices, vec![5]);
}

#[test]
fn determinism_two_runs() {
    let content = "one\ntwo\nthree";
    let indices: Vec<usize> = vec![0, 2];
    let a = compute_commitment(content, &indices);
    let b = compute_commitment(content, &indices);
    assert_eq!(a, b);
}

#[test]
fn duplicate_index_redacts_once() {
    let content = "one\ntwo\nthree";
    let once = compute_commitment(content, &vec![1]);
    let twice = compute_commitment(content, &vec![1, 1]);
    assert!(once.redacted.equals(&twice.redacted));
    assert_eq!(twice.indices, vec![1, 1]);
}

#[test]
fn out_of_range_index_has_no_effect() {
    let content = "one\ntwo\nthree";
    let plain = compute_commitment(content, &vec![0]);
    let extra = compute_commitment(content, &vec![0, 7]);
    assert!(plain.redacted.equals(&extra.redacted));
    assert!(plain.full.equals(&extra.full));
}

#[test]
fn full_document_sentinel() {
    let content = "one\ntwo\nthree";
    let c = compute_commitment(content, &vec![0, 1, 2]);
    let all_sentinel = format!("{}\n{}\n{}", SENTINEL, SENTINEL, SENTINEL);
    assert!(c.redacted.equals(&text_digest(&all_sentinel)));
}

#[test]
fn empty_redaction_equals_identity() {
    let content = "one\ntwo\nthree";
    let c = compute_commitment(content, &vec![]);
    assert!(c.redacted.equals(&c.full));
}

#[test]
fn empty_redaction_differs_on_trailing_newline() {
    let content = "one\ntwo\n";
    let c = compute_commitment(content, &vec![]);
    assert!(!c.redacted.equals(&c.full));
    assert!(c.redacted.equals(&text_digest("one\ntwo")));
}

#[test]
fn round_trip_commitment_through_double() {
    // A double for the engine: it runs the same deterministic computation
    // and echoes the commitment back; verification returns it unchanged.
    let content = "alpha\nbeta";
    let requested: Vec<usize> = vec![0];
    let engine_commitment = compute_commitment(content, &requested);
    let stored = engine_commitment.clone();
    assert_eq!(stored, engine_commitment);
    assert!(host_cross_check(content, &requested, &stored).is_ok());
}

#[test]
fn consistency_rejection_on_full_digest() {
    let content = "alpha\nbeta";
    let requested: Vec<usize> = vec![0];
    // A double for the engine that declares a digest of different bytes.
    let doctored = Commitment {
        full: text_digest("alpha\nbetA"),
        ..compute_commitment(content, &requested)
    };
    let r = host_cross_check(content, &requested, &doctored);
    assert_eq!(r, Err(ConsistencyError::FullDigestMismatch));
}

#[test]
fn consistency_rejection_on_indices() {
    let content = "alpha\nbeta";
    let requested: Vec<usize> = vec![0];
    let doctored = Commitment { indices: vec![1], ..compute_commitment(content, &requested) };
    let r = host_cross_check(content, &requested, &doctored);
    assert_eq!(r, Err(ConsistencyError::IndicesMismatch));
}

#[test]
fn indices_compared_as_sets() {
    let content = "alpha\nbeta\ngamma";
    let requested: Vec<usize> = vec![2, 1];
    let c = compute_commitment(content, &vec![1, 2, 2]);
    let local = text_digest(content);
    assert!(check_commitment(&local, &requested, &c).is_ok());
}

#[test]
fn redacting_a_sentinel_line_changes_nothing() {
    // The one in-range case where redaction has no textual effect: the line
    // already is the sentinel.
    let content = "***REDACTED***\nbeta";
    let c = compute_commitment(content, &vec![0]);
    assert!(c.redacted.equals(&c.full));
}

#[test]
fn check_order_full_digest_first() {
    let content = "alpha\nbeta";
    let doctored = Commitment {
        full: text_digest("other"),
        indices: vec![9],
        ..compute_commitment(content, &vec![0])
    };
    // Both checks fail; the full-digest check decides first.
    let r = host_cross_check(content, &vec![0], &doctored);
    assert_eq!(r, Err(ConsistencyError::FullDigestMismatch));
}
