//! Byte-level cross-checks of the encoder against the reference
//! MessagePack serializer: for every opcode, the library's envelope must
//! be exactly what the reference produces for the same logical call.

use meritrank_connector::commands::{scores_query, Command, ReadTarget, Weight, WriteTarget};

fn w(x: f64) -> Weight {
    Weight { bits: x.to_bits() }
}

fn envelope(tag: &str, ctx: &str, args: Vec<u8>) -> Vec<u8> {
    rmp_serde::to_vec(&(tag, ctx, args)).expect("reference encoding")
}

fn encoded(cmd: &Command) -> Vec<u8> {
    cmd.encode().expect("command should encode")
}

#[test]
fn bytes_version() {
    let args = rmp_serde::to_vec(&()).unwrap();
    assert_eq!(encoded(&Command::Version), envelope("ver", "", args));
}

#[test]
fn bytes_node_score() {
    let args = rmp_serde::to_vec(&("U1", "U2")).unwrap();
    let cmd = Command::NodeScore {
        context: ReadTarget::Named("X".to_string()),
        ego: "U1".to_string(),
        target: "U2".to_string(),
    };
    assert_eq!(encoded(&cmd), envelope("node_score", "X", args));
}

#[test]
fn bytes_node_score_linear_sum() {
    let args = rmp_serde::to_vec(&("U1", "U2")).unwrap();
    let cmd = Command::NodeScoreLinearSum { ego: "U1".to_string(), target: "U2".to_string() };
    assert_eq!(encoded(&cmd), envelope("node_score_null", "", args));
}

#[test]
fn bytes_scores() {
    let args =
        rmp_serde::to_vec(&("U1", "U", false, 10.0f64, false, 0.0f64, true, 0u32, 16u32))
            .unwrap();
    let query = scores_query(
        "U1".to_string(),
        "U".to_string(),
        false,
        Some(w(10.0)),
        None,
        None,
        Some(w(0.0)),
        0,
        16,
    )
    .unwrap();
    let cmd = Command::Scores { context: ReadTarget::Aggregate, query };
    assert_eq!(encoded(&cmd), envelope("scores", "", args));
}

#[test]
fn bytes_scores_linear_sum() {
    let args = rmp_serde::to_vec(&("U1")).unwrap();
    let cmd = Command::ScoresLinearSum { ego: "U1".to_string() };
    assert_eq!(encoded(&cmd), envelope("scores_null", "", args));
}

#[test]
fn bytes_graph() {
    let args = rmp_serde::to_vec(&("U1", "U2", false, 0u32, 4096u32)).unwrap();
    let cmd = Command::Graph {
        context: ReadTarget::Aggregate,
        ego: "U1".to_string(),
        focus: "U2".to_string(),
        positive_only: false,
        index: 0,
        count: 4096,
    };
    assert_eq!(encoded(&cmd), envelope("graph", "", args));
}

#[test]
fn bytes_node_list_and_edges() {
    let args = rmp_serde::to_vec(&()).unwrap();
    let cmd = Command::NodeList { context: ReadTarget::Named("X".to_string()) };
    assert_eq!(encoded(&cmd), envelope("node_list", "X", args.clone()));
    let cmd = Command::EdgeList { context: ReadTarget::Aggregate };
    assert_eq!(encoded(&cmd), envelope("edges", "", args));
}

#[test]
fn bytes_connected_and_mutual() {
    let args = rmp_serde::to_vec(&("U1")).unwrap();
    let cmd = Command::Connected { context: ReadTarget::Aggregate, ego: "U1".to_string() };
    assert_eq!(encoded(&cmd), envelope("connected", "", args.clone()));
    let cmd = Command::MutualScores {
        context: ReadTarget::Named("X".to_string()),
        ego: "U1".to_string(),
    };
    assert_eq!(encoded(&cmd), envelope("mutual_scores", "X", args));
}

#[test]
fn bytes_put_edge() {
    let args = rmp_serde::to_vec(&("U1", "U2", 1.0f64)).unwrap();
    let cmd = Command::PutEdge {
        context: WriteTarget::Named("X".to_string()),
        src: "U1".to_string(),
        dst: "U2".to_string(),
        weight: w(1.0),
    };
    assert_eq!(encoded(&cmd), envelope("put_edge", "X", args));
}

#[test]
fn bytes_delete_edge_and_node() {
    let args = rmp_serde::to_vec(&("U1", "U2")).unwrap();
    let cmd = Command::DeleteEdge {
        context: WriteTarget::Default,
        src: "U1".to_string(),
        dst: "U2".to_string(),
    };
    assert_eq!(encoded(&cmd), envelope("delete_edge", "", args));
    let args = rmp_serde::to_vec(&("U1",)).unwrap();
    let cmd = Command::DeleteNode {
        context: WriteTarget::Named("X".to_string()),
        src: "U1".to_string(),
    };
    assert_eq!(encoded(&cmd), envelope("delete_node", "X", args));
}

#[test]
fn bytes_admin() {
    let args = rmp_serde::to_vec(&()).unwrap();
    assert_eq!(encoded(&Command::Reset), envelope("reset", "", args.clone()));
    assert_eq!(
        encoded(&Command::RecomputeZero),
        envelope("recalculate_zero", "", args.clone())
    );
    assert_eq!(encoded(&Command::Synchronize), envelope("sync", "", args));
    let args = rmp_serde::to_vec(&(2u32)).unwrap();
    assert_eq!(encoded(&Command::SetLogLevel { level: 2 }), envelope("log_level", "", args));
}

#[test]
fn bytes_non_ascii_strings_match_reference() {
    let args = rmp_serde::to_vec(&("Ußer/一", "U2", -2.5f64)).unwrap();
    let cmd = Command::PutEdge {
        context: WriteTarget::Named("зона".to_string()),
        src: "Ußer/一".to_string(),
        dst: "U2".to_string(),
        weight: w(-2.5),
    };
    assert_eq!(encoded(&cmd), envelope("put_edge", "зона", args));
}

#[test]
fn bytes_string_header_boundaries_match_reference() {
    for len in [0usize, 31, 32, 255, 256] {
        let id: String = "n".repeat(len);
        let args = rmp_serde::to_vec(&(id.as_str())).unwrap();
        let cmd = Command::Connected { context: ReadTarget::Aggregate, ego: id.clone() };
        assert_eq!(encoded(&cmd), envelope("connected", "", args), "length {}", len);
    }
}

#[test]
fn bytes_integer_width_boundaries_match_reference() {
    for count in [0u32, 127, 128, 255, 256, 65535, 65536, u32::MAX] {
        let args = rmp_serde::to_vec(&("U1", "U2", false, count, count)).unwrap();
        let cmd = Command::Graph {
            context: ReadTarget::Aggregate,
            ego: "U1".to_string(),
            focus: "U2".to_string(),
            positive_only: false,
            index: count,
            count,
        };
        assert_eq!(encoded(&cmd), envelope("graph", "", args), "count {}", count);
    }
}

#[test]
fn bytes_long_string_header_matches_reference() {
    let long: String = "n".repeat(300);
    let args = rmp_serde::to_vec(&(long.as_str())).unwrap();
    let cmd = Command::Connected { context: ReadTarget::Aggregate, ego: long.clone() };
    assert_eq!(encoded(&cmd), envelope("connected", "", args));
}
