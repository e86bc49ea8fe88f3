//! Round-trip tests: decoding an encoded envelope yields the same command,
//! and the encoder's bytes match the reference MessagePack serializer.

use meritrank_connector::commands::{
    decode_command, scores_query, Command, ReadTarget, Weight, WriteTarget,
    LOWER_BOUND_DEFAULT_BITS, UPPER_BOUND_DEFAULT_BITS,
};

fn roundtrip(cmd: &Command) -> Command {
    let bytes = cmd.encode().expect("command should encode");
    decode_command(&bytes).expect("encoded command should decode")
}

fn w(x: f64) -> Weight {
    Weight { bits: x.to_bits() }
}

#[test]
fn roundtrip_version() {
    match roundtrip(&Command::Version) {
        Command::Version => {}
        _ => panic!("wrong command"),
    }
}

#[test]
fn roundtrip_node_score_aggregate() {
    let cmd = Command::NodeScore {
        context: ReadTarget::Aggregate,
        ego: "U1".to_string(),
        target: "U2".to_string(),
    };
    match roundtrip(&cmd) {
        Command::NodeScore { context: ReadTarget::Aggregate, ego, target } => {
            assert_eq!(ego, "U1");
            assert_eq!(target, "U2");
        }
        _ => panic!("wrong command"),
    }
}

#[test]
fn roundtrip_node_score_named_context() {
    let cmd = Command::NodeScore {
        context: ReadTarget::Named("X".to_string()),
        ego: "U1".to_string(),
        target: "U2".to_string(),
    };
    match roundtrip(&cmd) {
        Command::NodeScore { context: ReadTarget::Named(c), ego, target } => {
            assert_eq!(c, "X");
            assert_eq!(ego, "U1");
            assert_eq!(target, "U2");
        }
        _ => panic!("wrong command"),
    }
}

#[test]
fn roundtrip_node_score_linear_sum_empty_ids() {
    let cmd = Command::NodeScoreLinearSum { ego: String::new(), target: String::new() };
    match roundtrip(&cmd) {
        Command::NodeScoreLinearSum { ego, target } => {
            assert_eq!(ego, "");
            assert_eq!(target, "");
        }
        _ => panic!("wrong command"),
    }
}

#[test]
fn roundtrip_scores_with_extreme_bounds() {
    let query = scores_query(
        "U1".to_string(),
        "U".to_string(),
        true,
        Some(w(f64::MAX)),
        None,
        None,
        Some(w(f64::MIN)),
        0,
        u32::MAX,
    )
    .expect("bounds do not conflict");
    let cmd = Command::Scores { context: ReadTarget::Named("X".to_string()), query };
    match roundtrip(&cmd) {
        Command::Scores { context: ReadTarget::Named(c), query } => {
            assert_eq!(c, "X");
            assert_eq!(query.ego, "U1");
            assert_eq!(query.kind, "U");
            assert!(query.hide_personal);
            assert_eq!(query.upper.value.bits, f64::MAX.to_bits());
            assert!(!query.upper.inclusive);
            assert_eq!(query.lower.value.bits, f64::MIN.to_bits());
            assert!(query.lower.inclusive);
            assert_eq!(query.index, 0);
            assert_eq!(query.count, u32::MAX);
        }
        _ => panic!("wrong command"),
    }
}

#[test]
fn roundtrip_scores_defaults() {
    let query = scores_query(
        "U1".to_string(),
        String::new(),
        false,
        None,
        None,
        None,
        None,
        3,
        16,
    )
    .expect("no bounds conflict");
    assert_eq!(query.upper.value.bits, UPPER_BOUND_DEFAULT_BITS);
    assert_eq!(query.upper.value.bits, f64::MAX.to_bits());
    assert!(!query.upper.inclusive);
    assert_eq!(query.lower.value.bits, LOWER_BOUND_DEFAULT_BITS);
    assert_eq!(query.lower.value.bits, f64::MIN.to_bits());
    assert!(!query.lower.inclusive);
    let cmd = Command::Scores { context: ReadTarget::Aggregate, query };
    match roundtrip(&cmd) {
        Command::Scores { context: ReadTarget::Aggregate, query } => {
            assert_eq!(query.index, 3);
            assert_eq!(query.count, 16);
        }
        _ => panic!("wrong command"),
    }
}

#[test]
fn roundtrip_scores_linear_sum() {
    let cmd = Command::ScoresLinearSum { ego: "U1".to_string() };
    match roundtrip(&cmd) {
        Command::ScoresLinearSum { ego } => assert_eq!(ego, "U1"),
        _ => panic!("wrong command"),
    }
}

#[test]
fn roundtrip_graph() {
    let cmd = Command::Graph {
        context: ReadTarget::Named("X".to_string()),
        ego: "U1".to_string(),
        focus: "U2".to_string(),
        positive_only: true,
        index: 7,
        count: 4096,
    };
    match roundtrip(&cmd) {
        Command::Graph { context: ReadTarget::Named(c), ego, focus, positive_only, index, count } => {
            assert_eq!(c, "X");
            assert_eq!(ego, "U1");
            assert_eq!(focus, "U2");
            assert!(positive_only);
            assert_eq!(index, 7);
            assert_eq!(count, 4096);
        }
        _ => panic!("wrong command"),
    }
}

#[test]
fn roundtrip_node_and_edge_lists() {
    match roundtrip(&Command::NodeList { context: ReadTarget::Aggregate }) {
        Command::NodeList { context: ReadTarget::Aggregate } => {}
        _ => panic!("wrong command"),
    }
    match roundtrip(&Command::EdgeList { context: ReadTarget::Named("Y".to_string()) }) {
        Command::EdgeList { context: ReadTarget::Named(c) } => assert_eq!(c, "Y"),
        _ => panic!("wrong command"),
    }
}

#[test]
fn roundtrip_connected_and_mutual() {
    match roundtrip(&Command::Connected {
        context: ReadTarget::Aggregate,
        ego: "U1".to_string(),
    }) {
        Command::Connected { context: ReadTarget::Aggregate, ego } => assert_eq!(ego, "U1"),
        _ => panic!("wrong command"),
    }
    match roundtrip(&Command::MutualScores {
        context: ReadTarget::Named("X".to_string()),
        ego: "U9".to_string(),
    }) {
        Command::MutualScores { context: ReadTarget::Named(c), ego } => {
            assert_eq!(c, "X");
            assert_eq!(ego, "U9");
        }
        _ => panic!("wrong command"),
    }
}

#[test]
fn roundtrip_mutations_zero_weight() {
    let cmd = Command::PutEdge {
        context: WriteTarget::Default,
        src: "U1".to_string(),
        dst: "U2".to_string(),
        weight: w(0.0),
    };
    match roundtrip(&cmd) {
        Command::PutEdge { context: WriteTarget::Default, src, dst, weight } => {
            assert_eq!(src, "U1");
            assert_eq!(dst, "U2");
            assert_eq!(weight.bits, 0);
        }
        _ => panic!("wrong command"),
    }
    match roundtrip(&Command::DeleteEdge {
        context: WriteTarget::Named("X".to_string()),
        src: "U1".to_string(),
        dst: "U2".to_string(),
    }) {
        Command::DeleteEdge { context: WriteTarget::Named(c), src, dst } => {
            assert_eq!(c, "X");
            assert_eq!(src, "U1");
            assert_eq!(dst, "U2");
        }
        _ => panic!("wrong command"),
    }
    match roundtrip(&Command::DeleteNode {
        context: WriteTarget::Default,
        src: "U1".to_string(),
    }) {
        Command::DeleteNode { context: WriteTarget::Default, src } => assert_eq!(src, "U1"),
        _ => panic!("wrong command"),
    }
}

#[test]
fn roundtrip_admin() {
    match roundtrip(&Command::Reset) {
        Command::Reset => {}
        _ => panic!("wrong command"),
    }
    match roundtrip(&Command::RecomputeZero) {
        Command::RecomputeZero => {}
        _ => panic!("wrong command"),
    }
    match roundtrip(&Command::Synchronize) {
        Command::Synchronize => {}
        _ => panic!("wrong command"),
    }
    match roundtrip(&Command::SetLogLevel { level: 2 }) {
        Command::SetLogLevel { level } => assert_eq!(level, 2),
        _ => panic!("wrong command"),
    }
}

#[test]
fn roundtrip_non_ascii_ids() {
    let cmd = Command::PutEdge {
        context: WriteTarget::Named("зона-α".to_string()),
        src: "Ußer/一".to_string(),
        dst: "Ußer/二".to_string(),
        weight: w(-2.5),
    };
    match roundtrip(&cmd) {
        Command::PutEdge { context: WriteTarget::Named(c), src, dst, weight } => {
            assert_eq!(c, "зона-α");
            assert_eq!(src, "Ußer/一");
            assert_eq!(dst, "Ußer/二");
            assert_eq!(weight.bits, (-2.5f64).to_bits());
        }
        _ => panic!("wrong command"),
    }
}

#[test]
fn roundtrip_long_id() {
    let long: String = "n".repeat(300);
    let cmd = Command::Connected { context: ReadTarget::Aggregate, ego: long.clone() };
    match roundtrip(&cmd) {
        Command::Connected { context: ReadTarget::Aggregate, ego } => assert_eq!(ego, long),
        _ => panic!("wrong command"),
    }
}

#[test]
fn empty_named_context_is_rejected() {
    let cmd = Command::EdgeList { context: ReadTarget::Named(String::new()) };
    match cmd.encode() {
        Err(meritrank_connector::commands::EncodeError::EmptyContextName) => {}
        _ => panic!("expected the empty named context to be rejected"),
    }
}
