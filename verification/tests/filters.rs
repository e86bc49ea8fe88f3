//! Filter validation: conflicting range bounds fail before anything is
//! encoded, so no bytes can ever reach a transport.

use meritrank_connector::client::{prepare, Config};
use meritrank_connector::commands::{scores_query, Command, EncodeError, ReadTarget, Weight};

fn w(x: f64) -> Weight {
    Weight { bits: x.to_bits() }
}

struct StubTransport {
    calls: usize,
}

impl StubTransport {
    fn send(&mut self, _payload: &[u8]) {
        self.calls += 1;
    }
}

#[test]
fn both_upper_bounds_fail() {
    match scores_query(
        "U1".to_string(),
        String::new(),
        false,
        Some(w(1.0)),
        Some(w(2.0)),
        None,
        None,
        0,
        16,
    ) {
        Err(EncodeError::ConflictingUpperBounds) => {}
        _ => panic!("lt and lte together must be rejected"),
    }
}

#[test]
fn both_lower_bounds_fail() {
    match scores_query(
        "U1".to_string(),
        String::new(),
        false,
        None,
        Some(w(2.0)),
        Some(w(0.0)),
        Some(w(0.5)),
        0,
        16,
    ) {
        Err(EncodeError::ConflictingLowerBounds) => {}
        _ => panic!("gt and gte together must be rejected"),
    }
}

#[test]
fn conflicting_filter_never_reaches_the_transport() {
    let mut transport = StubTransport { calls: 0 };
    let cfg = Config::default();
    let outcome = scores_query(
        "U1".to_string(),
        String::new(),
        false,
        Some(w(1.0)),
        Some(w(2.0)),
        None,
        None,
        0,
        16,
    );
    match outcome {
        Ok(query) => {
            // Only a valid query can become a command and a payload.
            let cmd = Command::Scores { context: ReadTarget::Aggregate, query };
            let request = prepare(&cmd, &cfg, None).expect("a valid query encodes");
            transport.send(&request.payload);
        }
        Err(e) => {
            assert_eq!(e, EncodeError::ConflictingUpperBounds);
        }
    }
    assert_eq!(transport.calls, 0, "the transport must not have been invoked");
}

#[test]
fn single_sided_bounds_pass() {
    let query = scores_query(
        "U1".to_string(),
        String::new(),
        false,
        Some(w(10.0)),
        None,
        Some(w(0.0)),
        None,
        0,
        16,
    )
    .expect("one bound per side is fine");
    assert_eq!(query.upper.value.bits, 10.0f64.to_bits());
    assert!(!query.upper.inclusive);
    assert_eq!(query.lower.value.bits, 0.0f64.to_bits());
    assert!(!query.lower.inclusive);
}

#[test]
fn inclusive_bounds_pass() {
    let query = scores_query(
        "U1".to_string(),
        String::new(),
        false,
        None,
        Some(w(10.0)),
        None,
        Some(w(0.0)),
        0,
        16,
    )
    .expect("one bound per side is fine");
    assert!(query.upper.inclusive);
    assert!(query.lower.inclusive);
}
