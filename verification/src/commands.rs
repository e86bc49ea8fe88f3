//! Logical operations and their wire envelopes.
//!
//! Every call the client can make is one `Command`. A command is serialized
//! as a three-part envelope: an opcode tag, a context string, and an
//! argument blob whose shape is fixed per opcode. The context is a sibling
//! of the arguments, never mixed into them, so the engine can route and
//! aggregate independently of the operation's own arguments.
//!
//! The empty context string is overloaded by operation kind: a read with
//! the empty context means "the aggregate across all named contexts", a
//! mutation with the empty context means "the default bucket". The two
//! target enums below keep those cases apart in the API; the empty string
//! appears only on the wire.

use vstd::prelude::*;

verus! {

use vstd::string::StringExecFns;
use crate::wire::{lemma_skip_peel, lemma_skip_skip, lemma_parse_uint_round, lemma_parse_str_round, lemma_parse_f64_bits_round,
    lemma_parse_arr_header_round, lemma_parse_blob_round, enc_nil, enc_bool, enc_str, enc_uint, enc_f64_bits, enc_blob, arr_header,
    str_encodable, blob_encodable, emit_arr_header, emit_bool, emit_f64_bits, emit_nil,
    emit_str, emit_uint, emit_blob, parse_nil, parse_bool, parse_uint, parse_str,
    parse_f64_bits, parse_arr_header, parse_blob, read_nil, read_bool, read_uint, read_str,
    read_f64_bits, read_arr_header, read_blob};

/// An edge weight or score: the bit pattern of an IEEE-754 double, carried
/// untouched between the caller and the wire.
#[derive(Clone, Copy, PartialEq, Eq, Structural, Debug)]
pub struct Weight {
    pub bits: u64,
}

/// Bit pattern of the greatest finite double: the default upper bound of a
/// ranged score query, standing for "no upper bound".
pub const UPPER_BOUND_DEFAULT_BITS: u64 = 0x7FEFFFFFFFFFFFFF;

/// Bit pattern of the least finite double (the negative of the greatest):
/// the default lower bound, standing for "no lower bound".
pub const LOWER_BOUND_DEFAULT_BITS: u64 = 0xFFEFFFFFFFFFFFFF;

/// One side of a score range filter, after validation: the bound value and
/// whether the comparison is inclusive.
#[derive(Clone, Copy, PartialEq, Eq, Structural, Debug)]
pub struct Bound {
    pub value: Weight,
    pub inclusive: bool,
}

/// Which weight bucket a read observes. Reading the aggregate sees, for
/// each edge, the sum of its weights across every context.
pub enum ReadTarget {
    Aggregate,
    Named(String),
}

/// Which weight bucket a mutation writes. The default target writes the
/// default bucket directly; it does not fan out to named buckets.
pub enum WriteTarget {
    Default,
    Named(String),
}

pub enum ReadTargetView {
    Aggregate,
    Named(Seq<char>),
}

pub enum WriteTargetView {
    Default,
    Named(Seq<char>),
}

impl View for ReadTarget {
    type V = ReadTargetView;

    open spec fn view(&self) -> ReadTargetView {
        match self {
            ReadTarget::Aggregate => ReadTargetView::Aggregate,
            ReadTarget::Named(s) => ReadTargetView::Named(s@),
        }
    }
}

impl View for WriteTarget {
    type V = WriteTargetView;

    open spec fn view(&self) -> WriteTargetView {
        match self {
            WriteTarget::Default => WriteTargetView::Default,
            WriteTarget::Named(s) => WriteTargetView::Named(s@),
        }
    }
}

pub open spec fn read_target_wire(t: ReadTargetView) -> Seq<char> {
    match t {
        ReadTargetView::Aggregate => Seq::empty(),
        ReadTargetView::Named(s) => s,
    }
}

pub open spec fn write_target_wire(t: WriteTargetView) -> Seq<char> {
    match t {
        WriteTargetView::Default => Seq::empty(),
        WriteTargetView::Named(s) => s,
    }
}

/// A named context must not be the empty string: on the wire the empty
/// string already stands for the aggregate (reads) or the default bucket
/// (mutations).
pub open spec fn read_target_wf(t: ReadTargetView) -> bool {
    match t {
        ReadTargetView::Aggregate => true,
        ReadTargetView::Named(s) => s.len() > 0,
    }
}

pub open spec fn write_target_wf(t: WriteTargetView) -> bool {
    match t {
        WriteTargetView::Default => true,
        WriteTargetView::Named(s) => s.len() > 0,
    }
}

/// The fixed-shape arguments of a ranged score list query.
pub struct ScoreQuery {
    pub ego: String,
    pub kind: String,
    pub hide_personal: bool,
    pub upper: Bound,
    pub lower: Bound,
    pub index: u32,
    pub count: u32,
}

pub struct ScoreQueryView {
    pub ego: Seq<char>,
    pub kind: Seq<char>,
    pub hide_personal: bool,
    pub upper: Bound,
    pub lower: Bound,
    pub index: u32,
    pub count: u32,
}

impl View for ScoreQuery {
    type V = ScoreQueryView;

    open spec fn view(&self) -> ScoreQueryView {
        ScoreQueryView {
            ego: self.ego@,
            kind: self.kind@,
            hide_personal: self.hide_personal,
            upper: self.upper,
            lower: self.lower,
            index: self.index,
            count: self.count,
        }
    }
}

/// One logical operation, with its context where the protocol gives it one.
#[allow(inconsistent_fields)]
pub enum Command {
    /// Engine version string.
    Version,
    /// Pairwise score of `target` as seen from `ego`.
    NodeScore { context: ReadTarget, ego: String, target: String },
    /// Pairwise score, pre-summed linear variant: no per-context
    /// decomposition is asked of the engine.
    NodeScoreLinearSum { ego: String, target: String },
    /// Ranged score list.
    Scores { context: ReadTarget, query: ScoreQuery },
    /// Score list, pre-summed linear variant.
    ScoresLinearSum { ego: String },
    /// Neighborhood expansion around `ego` focused on `focus`.
    Graph {
        context: ReadTarget,
        ego: String,
        focus: String,
        positive_only: bool,
        index: u32,
        count: u32,
    },
    /// All node names.
    NodeList { context: ReadTarget },
    /// All edges with their weights.
    EdgeList { context: ReadTarget },
    /// Nodes directly connected to `ego`.
    Connected { context: ReadTarget, ego: String },
    /// Peers with mutual scores relative to `ego`.
    MutualScores { context: ReadTarget, ego: String },
    /// Create or overwrite one edge in one bucket.
    PutEdge { context: WriteTarget, src: String, dst: String, weight: Weight },
    /// Remove one edge from one bucket.
    DeleteEdge { context: WriteTarget, src: String, dst: String },
    /// Remove one node from one bucket.
    DeleteNode { context: WriteTarget, src: String },
    /// Clear all engine state across all contexts.
    Reset,
    /// Recompute rankings anchored at the distinguished zero node.
    RecomputeZero,
    /// Block until all queued mutations are applied.
    Synchronize,
    /// Set the engine's log level.
    SetLogLevel { level: u32 },
}

#[allow(inconsistent_fields)]
pub enum CommandView {
    Version,
    NodeScore { context: ReadTargetView, ego: Seq<char>, target: Seq<char> },
    NodeScoreLinearSum { ego: Seq<char>, target: Seq<char> },
    Scores { context: ReadTargetView, query: ScoreQueryView },
    ScoresLinearSum { ego: Seq<char> },
    Graph {
        context: ReadTargetView,
        ego: Seq<char>,
        focus: Seq<char>,
        positive_only: bool,
        index: u32,
        count: u32,
    },
    NodeList { context: ReadTargetView },
    EdgeList { context: ReadTargetView },
    Connected { context: ReadTargetView, ego: Seq<char> },
    MutualScores { context: ReadTargetView, ego: Seq<char> },
    PutEdge { context: WriteTargetView, src: Seq<char>, dst: Seq<char>, weight: Weight },
    DeleteEdge { context: WriteTargetView, src: Seq<char>, dst: Seq<char> },
    DeleteNode { context: WriteTargetView, src: Seq<char> },
    Reset,
    RecomputeZero,
    Synchronize,
    SetLogLevel { level: u32 },
}

impl View for Command {
    type V = CommandView;

    open spec fn view(&self) -> CommandView {
        match self {
            Command::Version => CommandView::Version,
            Command::NodeScore { context, ego, target } => CommandView::NodeScore {
                context: context@,
                ego: ego@,
                target: target@,
            },
            Command::NodeScoreLinearSum { ego, target } => CommandView::NodeScoreLinearSum {
                ego: ego@,
                target: target@,
            },
            Command::Scores { context, query } => CommandView::Scores {
                context: context@,
                query: query@,
            },
            Command::ScoresLinearSum { ego } => CommandView::ScoresLinearSum { ego: ego@ },
            Command::Graph { context, ego, focus, positive_only, index, count } => {
                CommandView::Graph {
                    context: context@,
                    ego: ego@,
                    focus: focus@,
                    positive_only: *positive_only,
                    index: *index,
                    count: *count,
                }
            },
            Command::NodeList { context } => CommandView::NodeList { context: context@ },
            Command::EdgeList { context } => CommandView::EdgeList { context: context@ },
            Command::Connected { context, ego } => CommandView::Connected {
                context: context@,
                ego: ego@,
            },
            Command::MutualScores { context, ego } => CommandView::MutualScores {
                context: context@,
                ego: ego@,
            },
            Command::PutEdge { context, src, dst, weight } => CommandView::PutEdge {
                context: context@,
                src: src@,
                dst: dst@,
                weight: *weight,
            },
            Command::DeleteEdge { context, src, dst } => CommandView::DeleteEdge {
                context: context@,
                src: src@,
                dst: dst@,
            },
            Command::DeleteNode { context, src } => CommandView::DeleteNode {
                context: context@,
                src: src@,
            },
            Command::Reset => CommandView::Reset,
            Command::RecomputeZero => CommandView::RecomputeZero,
            Command::Synchronize => CommandView::Synchronize,
            Command::SetLogLevel { level } => CommandView::SetLogLevel { level: *level },
        }
    }
}

// ----------------------------------------------------------------
// The wire form of a command
// ----------------------------------------------------------------

/// The opcode tag that names the operation on the wire.
pub open spec fn opcode_of(v: CommandView) -> Seq<char> {
    match v {
        CommandView::Version => "ver"@,
        CommandView::NodeScore { .. } => "node_score"@,
        CommandView::NodeScoreLinearSum { .. } => "node_score_null"@,
        CommandView::Scores { .. } => "scores"@,
        CommandView::ScoresLinearSum { .. } => "scores_null"@,
        CommandView::Graph { .. } => "graph"@,
        CommandView::NodeList { .. } => "node_list"@,
        CommandView::EdgeList { .. } => "edges"@,
        CommandView::Connected { .. } => "connected"@,
        CommandView::MutualScores { .. } => "mutual_scores"@,
        CommandView::PutEdge { .. } => "put_edge"@,
        CommandView::DeleteEdge { .. } => "delete_edge"@,
        CommandView::DeleteNode { .. } => "delete_node"@,
        CommandView::Reset => "reset"@,
        CommandView::RecomputeZero => "recalculate_zero"@,
        CommandView::Synchronize => "sync"@,
        CommandView::SetLogLevel { .. } => "log_level"@,
    }
}

/// The context string that travels beside the opcode. Operations without a
/// context of their own send the empty string.
pub open spec fn wire_context_of(v: CommandView) -> Seq<char> {
    match v {
        CommandView::NodeScore { context, .. } => read_target_wire(context),
        CommandView::Scores { context, .. } => read_target_wire(context),
        CommandView::Graph { context, .. } => read_target_wire(context),
        CommandView::NodeList { context } => read_target_wire(context),
        CommandView::EdgeList { context } => read_target_wire(context),
        CommandView::Connected { context, .. } => read_target_wire(context),
        CommandView::MutualScores { context, .. } => read_target_wire(context),
        CommandView::PutEdge { context, .. } => write_target_wire(context),
        CommandView::DeleteEdge { context, .. } => write_target_wire(context),
        CommandView::DeleteNode { context, .. } => write_target_wire(context),
        _ => Seq::empty(),
    }
}

/// The fixed-shape argument tuple of each opcode, already serialized.
pub open spec fn enc_args(v: CommandView) -> Seq<u8> {
    match v {
        CommandView::Version => enc_nil(),
        CommandView::NodeScore { ego, target, .. } => arr_header(2) + enc_str(ego) + enc_str(
            target,
        ),
        CommandView::NodeScoreLinearSum { ego, target } => arr_header(2) + enc_str(ego)
            + enc_str(target),
        CommandView::Scores { query, .. } => arr_header(9) + enc_str(query.ego) + enc_str(
            query.kind,
        ) + enc_bool(query.hide_personal) + enc_f64_bits(query.upper.value.bits) + enc_bool(
            query.upper.inclusive,
        ) + enc_f64_bits(query.lower.value.bits) + enc_bool(query.lower.inclusive) + enc_uint(
            query.index as u64,
        ) + enc_uint(query.count as u64),
        CommandView::ScoresLinearSum { ego } => enc_str(ego),
        CommandView::Graph { ego, focus, positive_only, index, count, .. } => arr_header(5)
            + enc_str(ego) + enc_str(focus) + enc_bool(positive_only) + enc_uint(index as u64)
            + enc_uint(count as u64),
        CommandView::NodeList { .. } => enc_nil(),
        CommandView::EdgeList { .. } => enc_nil(),
        CommandView::Connected { ego, .. } => enc_str(ego),
        CommandView::MutualScores { ego, .. } => enc_str(ego),
        CommandView::PutEdge { src, dst, weight, .. } => arr_header(3) + enc_str(src) + enc_str(
            dst,
        ) + enc_f64_bits(weight.bits),
        CommandView::DeleteEdge { src, dst, .. } => arr_header(2) + enc_str(src) + enc_str(dst),
        CommandView::DeleteNode { src, .. } => arr_header(1) + enc_str(src),
        CommandView::Reset => enc_nil(),
        CommandView::RecomputeZero => enc_nil(),
        CommandView::Synchronize => enc_nil(),
        CommandView::SetLogLevel { level } => enc_uint(level as u64),
    }
}

/// Every named context is non-empty.
pub open spec fn cmd_context_wf(v: CommandView) -> bool {
    match v {
        CommandView::NodeScore { context, .. } => read_target_wf(context),
        CommandView::Scores { context, .. } => read_target_wf(context),
        CommandView::Graph { context, .. } => read_target_wf(context),
        CommandView::NodeList { context } => read_target_wf(context),
        CommandView::EdgeList { context } => read_target_wf(context),
        CommandView::Connected { context, .. } => read_target_wf(context),
        CommandView::MutualScores { context, .. } => read_target_wf(context),
        CommandView::PutEdge { context, .. } => write_target_wf(context),
        CommandView::DeleteEdge { context, .. } => write_target_wf(context),
        CommandView::DeleteNode { context, .. } => write_target_wf(context),
        _ => true,
    }
}

/// Every string of the command, and the argument blob as a whole, fits the
/// wire's length headers.
pub open spec fn cmd_sizes_ok(v: CommandView) -> bool {
    &&& str_encodable(opcode_of(v))
    &&& str_encodable(wire_context_of(v))
    &&& blob_encodable(enc_args(v))
    &&& (match v {
        CommandView::NodeScore { ego, target, .. } => str_encodable(ego) && str_encodable(target),
        CommandView::NodeScoreLinearSum { ego, target } => str_encodable(ego) && str_encodable(
            target,
        ),
        CommandView::Scores { query, .. } => str_encodable(query.ego) && str_encodable(
            query.kind,
        ),
        CommandView::ScoresLinearSum { ego } => str_encodable(ego),
        CommandView::Graph { ego, focus, .. } => str_encodable(ego) && str_encodable(focus),
        CommandView::Connected { ego, .. } => str_encodable(ego),
        CommandView::MutualScores { ego, .. } => str_encodable(ego),
        CommandView::PutEdge { src, dst, .. } => str_encodable(src) && str_encodable(dst),
        CommandView::DeleteEdge { src, dst, .. } => str_encodable(src) && str_encodable(dst),
        CommandView::DeleteNode { src, .. } => str_encodable(src),
        _ => true,
    })
}

pub open spec fn cmd_wf(v: CommandView) -> bool {
    cmd_context_wf(v) && cmd_sizes_ok(v)
}

/// The whole envelope: a three element array of opcode tag, context
/// string, and the argument blob.
pub open spec fn enc_command(v: CommandView) -> Seq<u8> {
    arr_header(3) + enc_str(opcode_of(v)) + enc_str(wire_context_of(v)) + enc_blob(enc_args(v))
}

/// Why a command could not be encoded. Every case is decided before any
/// byte would leave the process.
#[derive(Clone, Copy, PartialEq, Eq, Structural, Debug)]
pub enum EncodeError {
    /// Both an exclusive and an inclusive upper bound were supplied.
    ConflictingUpperBounds,
    /// Both an exclusive and an inclusive lower bound were supplied.
    ConflictingLowerBounds,
    /// A named context was the empty string.
    EmptyContextName,
    /// A string or the argument blob exceeds the wire's length headers.
    Oversized,
}

// ----------------------------------------------------------------
// Parsing the wire form back
// ----------------------------------------------------------------

pub open spec fn read_target_of_wire(ctx: Seq<char>) -> ReadTargetView {
    if ctx.len() == 0 {
        ReadTargetView::Aggregate
    } else {
        ReadTargetView::Named(ctx)
    }
}

pub open spec fn write_target_of_wire(ctx: Seq<char>) -> WriteTargetView {
    if ctx.len() == 0 {
        WriteTargetView::Default
    } else {
        WriteTargetView::Named(ctx)
    }
}

/// An empty argument tuple: exactly one nil.
pub open spec fn parse_args_nil(args: Seq<u8>) -> bool {
    match parse_nil(args) {
        Some(k) => k == args.len(),
        None => false,
    }
}

/// A single scalar argument that must fit a 32-bit unsigned value.
pub open spec fn parse_args_uint32(args: Seq<u8>) -> Option<u32> {
    match parse_uint(args) {
        Some((v, k)) => if k == args.len() && v < 0x100000000 {
            Some(v as u32)
        } else {
            None
        },
        None => None,
    }
}

/// A bare string argument, not wrapped in an array.
pub open spec fn parse_args_bare_str(args: Seq<u8>) -> Option<Seq<char>> {
    match parse_str(args) {
        Some((t, k)) => if k == args.len() {
            Some(t)
        } else {
            None
        },
        None => None,
    }
}

/// A one element tuple holding a string.
pub open spec fn parse_args_str1(args: Seq<u8>) -> Option<Seq<char>> {
    match parse_arr_header(args) {
        Some((n, h)) => if n == 1 {
            match parse_str(args.skip(h)) {
                Some((t, k)) => if h + k == args.len() {
                    Some(t)
                } else {
                    None
                },
                None => None,
            }
        } else {
            None
        },
        None => None,
    }
}

/// A two element tuple of strings.
pub open spec fn parse_args_str2(args: Seq<u8>) -> Option<(Seq<char>, Seq<char>)> {
    match parse_arr_header(args) {
        Some((n, h)) => if n == 2 {
            match parse_str(args.skip(h)) {
                Some((a, k1)) => match parse_str(args.skip(h + k1)) {
                    Some((b, k2)) => if h + k1 + k2 == args.len() {
                        Some((a, b))
                    } else {
                        None
                    },
                    None => None,
                },
                None => None,
            }
        } else {
            None
        },
        None => None,
    }
}

/// The put-edge tuple: source, destination, weight bits.
pub open spec fn parse_args_put_edge(args: Seq<u8>) -> Option<(Seq<char>, Seq<char>, u64)> {
    match parse_arr_header(args) {
        Some((n, h)) => if n == 3 {
            match parse_str(args.skip(h)) {
                Some((a, k1)) => match parse_str(args.skip(h + k1)) {
                    Some((b, k2)) => match parse_f64_bits(args.skip(h + k1 + k2)) {
                        Some((w, k3)) => if h + k1 + k2 + k3 == args.len() {
                            Some((a, b, w))
                        } else {
                            None
                        },
                        None => None,
                    },
                    None => None,
                },
                None => None,
            }
        } else {
            None
        },
        None => None,
    }
}

/// The neighborhood expansion tuple: ego, focus, positive-only flag, and
/// pagination index and count.
pub open spec fn parse_args_graph(args: Seq<u8>) -> Option<
    (Seq<char>, Seq<char>, bool, u32, u32),
> {
    match parse_arr_header(args) {
        Some((n, h)) => if n == 5 {
            match parse_str(args.skip(h)) {
                Some((a, k1)) => match parse_str(args.skip(h + k1)) {
                    Some((b, k2)) => match parse_bool(args.skip(h + k1 + k2)) {
                        Some((po, k3)) => match parse_uint(args.skip(h + k1 + k2 + k3)) {
                            Some((ix, k4)) => if ix < 0x100000000 {
                                match parse_uint(args.skip(h + k1 + k2 + k3 + k4)) {
                                    Some((ct, k5)) => if ct < 0x100000000 && h + k1 + k2 + k3
                                        + k4 + k5 == args.len() {
                                        Some((a, b, po, ix as u32, ct as u32))
                                    } else {
                                        None
                                    },
                                    None => None,
                                }
                            } else {
                                None
                            },
                            None => None,
                        },
                        None => None,
                    },
                    None => None,
                },
                None => None,
            }
        } else {
            None
        },
        None => None,
    }
}

/// The ranged score list tuple, nine elements in fixed order.
pub open spec fn parse_args_scores(args: Seq<u8>) -> Option<ScoreQueryView> {
    match parse_arr_header(args) {
        Some((n, h)) => if n == 9 {
            match parse_str(args.skip(h)) {
                Some((ego, k1)) => match parse_str(args.skip(h + k1)) {
                    Some((kind, k2)) => match parse_bool(args.skip(h + k1 + k2)) {
                        Some((hp, k3)) => match parse_f64_bits(args.skip(h + k1 + k2 + k3)) {
                            Some((ub, k4)) => match parse_bool(
                                args.skip(h + k1 + k2 + k3 + k4),
                            ) {
                                Some((ui, k5)) => match parse_f64_bits(
                                    args.skip(h + k1 + k2 + k3 + k4 + k5),
                                ) {
                                    Some((lb, k6)) => match parse_bool(
                                        args.skip(h + k1 + k2 + k3 + k4 + k5 + k6),
                                    ) {
                                        Some((li, k7)) => match parse_uint(
                                            args.skip(h + k1 + k2 + k3 + k4 + k5 + k6 + k7),
                                        ) {
                                            Some((ix, k8)) => if ix < 0x100000000 {
                                                match parse_uint(
                                                    args.skip(
                                                        h + k1 + k2 + k3 + k4 + k5 + k6 + k7
                                                            + k8,
                                                    ),
                                                ) {
                                                    Some((ct, k9)) => if ct < 0x100000000 && h
                                                        + k1 + k2 + k3 + k4 + k5 + k6 + k7 + k8
                                                        + k9 == args.len() {
                                                        Some(
                                                            ScoreQueryView {
                                                                ego: ego,
                                                                kind: kind,
                                                                hide_personal: hp,
                                                                upper: Bound {
                                                                    value: Weight { bits: ub },
                                                                    inclusive: ui,
                                                                },
                                                                lower: Bound {
                                                                    value: Weight { bits: lb },
                                                                    inclusive: li,
                                                                },
                                                                index: ix as u32,
                                                                count: ct as u32,
                                                            },
                                                        )
                                                    } else {
                                                        None
                                                    },
                                                    None => None,
                                                }
                                            } else {
                                                None
                                            },
                                            None => None,
                                        },
                                        None => None,
                                    },
                                    None => None,
                                },
                                None => None,
                            },
                            None => None,
                        },
                        None => None,
                    },
                    None => None,
                },
                None => None,
            }
        } else {
            None
        },
        None => None,
    }
}

/// Dispatch on the opcode tag: checks the context rule and argument shape
/// of that operation.
pub open spec fn parse_op(tag: Seq<char>, ctx: Seq<char>, args: Seq<u8>) -> Option<CommandView> {
    if tag == "ver"@ {
        if ctx.len() == 0 && parse_args_nil(args) {
            Some(CommandView::Version)
        } else {
            None
        }
    } else if tag == "node_score"@ {
        match parse_args_str2(args) {
            Some((e, t)) => Some(
                CommandView::NodeScore { context: read_target_of_wire(ctx), ego: e, target: t },
            ),
            None => None,
        }
    } else if tag == "node_score_null"@ {
        if ctx.len() == 0 {
            match parse_args_str2(args) {
                Some((e, t)) => Some(CommandView::NodeScoreLinearSum { ego: e, target: t }),
                None => None,
            }
        } else {
            None
        }
    } else if tag == "scores"@ {
        match parse_args_scores(args) {
            Some(q) => Some(CommandView::Scores { context: read_target_of_wire(ctx), query: q }),
            None => None,
        }
    } else if tag == "scores_null"@ {
        if ctx.len() == 0 {
            match parse_args_bare_str(args) {
                Some(e) => Some(CommandView::ScoresLinearSum { ego: e }),
                None => None,
            }
        } else {
            None
        }
    } else if tag == "graph"@ {
        match parse_args_graph(args) {
            Some((e, f, po, ix, ct)) => Some(
                CommandView::Graph {
                    context: read_target_of_wire(ctx),
                    ego: e,
                    focus: f,
                    positive_only: po,
                    index: ix,
                    count: ct,
                },
            ),
            None => None,
        }
    } else if tag == "node_list"@ {
        if parse_args_nil(args) {
            Some(CommandView::NodeList { context: read_target_of_wire(ctx) })
        } else {
            None
        }
    } else if tag == "edges"@ {
        if parse_args_nil(args) {
            Some(CommandView::EdgeList { context: read_target_of_wire(ctx) })
        } else {
            None
        }
    } else if tag == "connected"@ {
        match parse_args_bare_str(args) {
            Some(e) => Some(
                CommandView::Connected { context: read_target_of_wire(ctx), ego: e },
            ),
            None => None,
        }
    } else if tag == "mutual_scores"@ {
        match parse_args_bare_str(args) {
            Some(e) => Some(
                CommandView::MutualScores { context: read_target_of_wire(ctx), ego: e },
            ),
            None => None,
        }
    } else if tag == "put_edge"@ {
        match parse_args_put_edge(args) {
            Some((s, d, w)) => Some(
                CommandView::PutEdge {
                    context: write_target_of_wire(ctx),
                    src: s,
                    dst: d,
                    weight: Weight { bits: w },
                },
            ),
            None => None,
        }
    } else if tag == "delete_edge"@ {
        match parse_args_str2(args) {
            Some((s, d)) => Some(
                CommandView::DeleteEdge { context: write_target_of_wire(ctx), src: s, dst: d },
            ),
            None => None,
        }
    } else if tag == "delete_node"@ {
        match parse_args_str1(args) {
            Some(s) => Some(
                CommandView::DeleteNode { context: write_target_of_wire(ctx), src: s },
            ),
            None => None,
        }
    } else if tag == "reset"@ {
        if ctx.len() == 0 && parse_args_nil(args) {
            Some(CommandView::Reset)
        } else {
            None
        }
    } else if tag == "recalculate_zero"@ {
        if ctx.len() == 0 && parse_args_nil(args) {
            Some(CommandView::RecomputeZero)
        } else {
            None
        }
    } else if tag == "sync"@ {
        if ctx.len() == 0 && parse_args_nil(args) {
            Some(CommandView::Synchronize)
        } else {
            None
        }
    } else if tag == "log_level"@ {
        if ctx.len() == 0 {
            match parse_args_uint32(args) {
                Some(v) => Some(CommandView::SetLogLevel { level: v }),
                None => None,
            }
        } else {
            None
        }
    } else {
        None
    }
}

/// The whole envelope, fully consumed.
pub open spec fn parse_command(s: Seq<u8>) -> Option<CommandView> {
    match parse_arr_header(s) {
        Some((n, h)) => if n == 3 {
            match parse_str(s.skip(h)) {
                Some((tag, a)) => match parse_str(s.skip(h + a)) {
                    Some((ctx, b)) => match parse_blob(s.skip(h + a + b)) {
                        Some((args, c)) => if h + a + b + c == s.len() {
                            parse_op(tag, ctx, args)
                        } else {
                            None
                        },
                        None => None,
                    },
                    None => None,
                },
                None => None,
            }
        } else {
            None
        },
        None => None,
    }
}

// ----------------------------------------------------------------
// Executable encoding
// ----------------------------------------------------------------

fn read_target_str(t: &ReadTarget) -> (r: &str)
    ensures
        r@ == read_target_wire(t@),
{
    match t {
        ReadTarget::Aggregate => {
            let e = "";
            proof {
                reveal_strlit("");
                assert(e@ =~= Seq::<char>::empty());
            }
            e
        },
        ReadTarget::Named(s) => s.as_str(),
    }
}

fn write_target_str(t: &WriteTarget) -> (r: &str)
    ensures
        r@ == write_target_wire(t@),
{
    match t {
        WriteTarget::Default => {
            let e = "";
            proof {
                reveal_strlit("");
                assert(e@ =~= Seq::<char>::empty());
            }
            e
        },
        WriteTarget::Named(s) => s.as_str(),
    }
}

fn read_target_ok(t: &ReadTarget) -> (r: bool)
    ensures
        r == read_target_wf(t@),
{
    match t {
        ReadTarget::Aggregate => true,
        ReadTarget::Named(s) => !s.as_str().is_empty(),
    }
}

fn write_target_ok(t: &WriteTarget) -> (r: bool)
    ensures
        r == write_target_wf(t@),
{
    match t {
        WriteTarget::Default => true,
        WriteTarget::Named(s) => !s.as_str().is_empty(),
    }
}

impl Command {
    pub fn opcode_tag(&self) -> (t: &str)
        ensures
            t@ == opcode_of(self@),
    {
        match self {
            Command::Version => "ver",
            Command::NodeScore { .. } => "node_score",
            Command::NodeScoreLinearSum { .. } => "node_score_null",
            Command::Scores { .. } => "scores",
            Command::ScoresLinearSum { .. } => "scores_null",
            Command::Graph { .. } => "graph",
            Command::NodeList { .. } => "node_list",
            Command::EdgeList { .. } => "edges",
            Command::Connected { .. } => "connected",
            Command::MutualScores { .. } => "mutual_scores",
            Command::PutEdge { .. } => "put_edge",
            Command::DeleteEdge { .. } => "delete_edge",
            Command::DeleteNode { .. } => "delete_node",
            Command::Reset => "reset",
            Command::RecomputeZero => "recalculate_zero",
            Command::Synchronize => "sync",
            Command::SetLogLevel { .. } => "log_level",
        }
    }

    pub fn wire_context_str(&self) -> (t: &str)
        ensures
            t@ == wire_context_of(self@),
    {
        let e = "";
        proof {
            reveal_strlit("");
            assert(e@ =~= Seq::<char>::empty());
        }
        match self {
            Command::NodeScore { context, .. } => read_target_str(context),
            Command::Scores { context, .. } => read_target_str(context),
            Command::Graph { context, .. } => read_target_str(context),
            Command::NodeList { context } => read_target_str(context),
            Command::EdgeList { context } => read_target_str(context),
            Command::Connected { context, .. } => read_target_str(context),
            Command::MutualScores { context, .. } => read_target_str(context),
            Command::PutEdge { context, .. } => write_target_str(context),
            Command::DeleteEdge { context, .. } => write_target_str(context),
            Command::DeleteNode { context, .. } => write_target_str(context),
            _ => e,
        }
    }

    pub fn context_ok(&self) -> (r: bool)
        ensures
            r == cmd_context_wf(self@),
    {
        match self {
            Command::NodeScore { context, .. } => read_target_ok(context),
            Command::Scores { context, .. } => read_target_ok(context),
            Command::Graph { context, .. } => read_target_ok(context),
            Command::NodeList { context } => read_target_ok(context),
            Command::EdgeList { context } => read_target_ok(context),
            Command::Connected { context, .. } => read_target_ok(context),
            Command::MutualScores { context, .. } => read_target_ok(context),
            Command::PutEdge { context, .. } => write_target_ok(context),
            Command::DeleteEdge { context, .. } => write_target_ok(context),
            Command::DeleteNode { context, .. } => write_target_ok(context),
            _ => true,
        }
    }

    /// Serializes the full envelope. Succeeds exactly on well-formed
    /// commands; nothing is handed to any transport on failure.
    pub fn encode(&self) -> (r: Result<Vec<u8>, EncodeError>)
        ensures
            r is Ok <==> cmd_wf(self@),
            (r matches Ok(v) ==> v@ == enc_command(self@)),
            (r matches Err(e) ==> (e == EncodeError::EmptyContextName <==> !cmd_context_wf(
                self@,
            ))),
            (r matches Err(e) ==> (e == EncodeError::Oversized <==> cmd_context_wf(self@))),
    {
        if !self.context_ok() {
            return Err(EncodeError::EmptyContextName);
        }
        let mut args: Vec<u8> = Vec::new();
        match self {
            Command::Version | Command::NodeList { .. } | Command::EdgeList { .. }
                | Command::Reset | Command::RecomputeZero | Command::Synchronize => {
                emit_nil(&mut args);
                assert(args@ =~= enc_args(self@));
            },
            Command::NodeScore { ego, target, .. } => {
                emit_arr_header(&mut args, 2);
                if !emit_str(&mut args, ego.as_str()) {
                    return Err(EncodeError::Oversized);
                }
                if !emit_str(&mut args, target.as_str()) {
                    return Err(EncodeError::Oversized);
                }
                assert(args@ =~= enc_args(self@));
            },
            Command::NodeScoreLinearSum { ego, target } => {
                emit_arr_header(&mut args, 2);
                if !emit_str(&mut args, ego.as_str()) {
                    return Err(EncodeError::Oversized);
                }
                if !emit_str(&mut args, target.as_str()) {
                    return Err(EncodeError::Oversized);
                }
                assert(args@ =~= enc_args(self@));
            },
            Command::Scores { query, .. } => {
                emit_arr_header(&mut args, 9);
                if !emit_str(&mut args, query.ego.as_str()) {
                    return Err(EncodeError::Oversized);
                }
                if !emit_str(&mut args, query.kind.as_str()) {
                    return Err(EncodeError::Oversized);
                }
                emit_bool(&mut args, query.hide_personal);
                emit_f64_bits(&mut args, query.upper.value.bits);
                emit_bool(&mut args, query.upper.inclusive);
                emit_f64_bits(&mut args, query.lower.value.bits);
                emit_bool(&mut args, query.lower.inclusive);
                emit_uint(&mut args, query.index as u64);
                emit_uint(&mut args, query.count as u64);
                assert(args@ =~= enc_args(self@));
            },
            Command::ScoresLinearSum { ego } => {
                if !emit_str(&mut args, ego.as_str()) {
                    return Err(EncodeError::Oversized);
                }
                assert(args@ =~= enc_args(self@));
            },
            Command::Graph { ego, focus, positive_only, index, count, .. } => {
                emit_arr_header(&mut args, 5);
                if !emit_str(&mut args, ego.as_str()) {
                    return Err(EncodeError::Oversized);
                }
                if !emit_str(&mut args, focus.as_str()) {
                    return Err(EncodeError::Oversized);
                }
                emit_bool(&mut args, *positive_only);
                emit_uint(&mut args, *index as u64);
                emit_uint(&mut args, *count as u64);
                assert(args@ =~= enc_args(self@));
            },
            Command::Connected { ego, .. } => {
                if !emit_str(&mut args, ego.as_str()) {
                    return Err(EncodeError::Oversized);
                }
                assert(args@ =~= enc_args(self@));
            },
            Command::MutualScores { ego, .. } => {
                if !emit_str(&mut args, ego.as_str()) {
                    return Err(EncodeError::Oversized);
                }
                assert(args@ =~= enc_args(self@));
            },
            Command::PutEdge { src, dst, weight, .. } => {
                emit_arr_header(&mut args, 3);
                if !emit_str(&mut args, src.as_str()) {
                    return Err(EncodeError::Oversized);
                }
                if !emit_str(&mut args, dst.as_str()) {
                    return Err(EncodeError::Oversized);
                }
                emit_f64_bits(&mut args, weight.bits);
                assert(args@ =~= enc_args(self@));
            },
            Command::DeleteEdge { src, dst, .. } => {
                emit_arr_header(&mut args, 2);
                if !emit_str(&mut args, src.as_str()) {
                    return Err(EncodeError::Oversized);
                }
                if !emit_str(&mut args, dst.as_str()) {
                    return Err(EncodeError::Oversized);
                }
                assert(args@ =~= enc_args(self@));
            },
            Command::DeleteNode { src, .. } => {
                emit_arr_header(&mut args, 1);
                if !emit_str(&mut args, src.as_str()) {
                    return Err(EncodeError::Oversized);
                }
                assert(args@ =~= enc_args(self@));
            },
            Command::SetLogLevel { level } => {
                emit_uint(&mut args, *level as u64);
                assert(args@ =~= enc_args(self@));
            },
        }
        let mut out: Vec<u8> = Vec::new();
        emit_arr_header(&mut out, 3);
        if !emit_str(&mut out, self.opcode_tag()) {
            return Err(EncodeError::Oversized);
        }
        if !emit_str(&mut out, self.wire_context_str()) {
            return Err(EncodeError::Oversized);
        }
        if !emit_blob(&mut out, &args) {
            return Err(EncodeError::Oversized);
        }
        assert(out@ =~= enc_command(self@));
        Ok(out)
    }
}

// ----------------------------------------------------------------
// Executable decoding
// ----------------------------------------------------------------

fn tag_is(tag: &String, lit: &str) -> (r: bool)
    ensures
        r == (tag@ == lit@),
{
    let l = String::from_str(lit);
    *tag == l
}

fn read_target_from_wire(ctx: String) -> (r: ReadTarget)
    ensures
        r@ == read_target_of_wire(ctx@),
{
    if ctx.as_str().is_empty() {
        ReadTarget::Aggregate
    } else {
        ReadTarget::Named(ctx)
    }
}

fn write_target_from_wire(ctx: String) -> (r: WriteTarget)
    ensures
        r@ == write_target_of_wire(ctx@),
{
    if ctx.as_str().is_empty() {
        WriteTarget::Default
    } else {
        WriteTarget::Named(ctx)
    }
}

fn read_args_nil(args: &Vec<u8>) -> (r: bool)
    ensures
        r == parse_args_nil(args@),
{
    assert(args@.skip(0) =~= args@);
    match read_nil(args, 0) {
        Some(end) => end == args.len(),
        None => false,
    }
}

fn read_args_uint32(args: &Vec<u8>) -> (r: Option<u32>)
    ensures
        r == parse_args_uint32(args@),
{
    assert(args@.skip(0) =~= args@);
    match read_uint(args, 0) {
        Some((v, end)) => if end == args.len() && v < 0x100000000u64 {
            Some(v as u32)
        } else {
            None
        },
        None => None,
    }
}

fn read_args_bare_str(args: &Vec<u8>) -> (r: Option<String>)
    ensures
        (match r {
            Some(s) => parse_args_bare_str(args@) == Some(s@),
            None => parse_args_bare_str(args@) is None,
        }),
{
    assert(args@.skip(0) =~= args@);
    match read_str(args, 0) {
        Some((s, end)) => if end == args.len() {
            Some(s)
        } else {
            None
        },
        None => None,
    }
}

fn read_args_str1(args: &Vec<u8>) -> (r: Option<String>)
    ensures
        (match r {
            Some(s) => parse_args_str1(args@) == Some(s@),
            None => parse_args_str1(args@) is None,
        }),
{
    assert(args@.skip(0) =~= args@);
    let (n, h) = match read_arr_header(args, 0) {
        Some(p) => p,
        None => {
            return None;
        },
    };
    if n != 1 {
        return None;
    }
    match read_str(args, h) {
        Some((s, end)) => if end == args.len() {
            Some(s)
        } else {
            None
        },
        None => None,
    }
}

fn read_args_str2(args: &Vec<u8>) -> (r: Option<(String, String)>)
    ensures
        (match r {
            Some(p) => parse_args_str2(args@) == Some((p.0@, p.1@)),
            None => parse_args_str2(args@) is None,
        }),
{
    assert(args@.skip(0) =~= args@);
    let (n, h) = match read_arr_header(args, 0) {
        Some(p) => p,
        None => {
            return None;
        },
    };
    if n != 2 {
        return None;
    }
    let (a, p1) = match read_str(args, h) {
        Some(p) => p,
        None => {
            return None;
        },
    };
    let (b, p2) = match read_str(args, p1) {
        Some(p) => p,
        None => {
            return None;
        },
    };
    if p2 == args.len() {
        Some((a, b))
    } else {
        None
    }
}

fn read_args_put_edge(args: &Vec<u8>) -> (r: Option<(String, String, u64)>)
    ensures
        (match r {
            Some(p) => parse_args_put_edge(args@) == Some((p.0@, p.1@, p.2)),
            None => parse_args_put_edge(args@) is None,
        }),
{
    assert(args@.skip(0) =~= args@);
    let (n, h) = match read_arr_header(args, 0) {
        Some(p) => p,
        None => {
            return None;
        },
    };
    if n != 3 {
        return None;
    }
    let (a, p1) = match read_str(args, h) {
        Some(p) => p,
        None => {
            return None;
        },
    };
    let (b, p2) = match read_str(args, p1) {
        Some(p) => p,
        None => {
            return None;
        },
    };
    let (w, p3) = match read_f64_bits(args, p2) {
        Some(p) => p,
        None => {
            return None;
        },
    };
    if p3 == args.len() {
        Some((a, b, w))
    } else {
        None
    }
}

#[verifier::rlimit(60)]
fn read_args_graph(args: &Vec<u8>) -> (r: Option<(String, String, bool, u32, u32)>)
    ensures
        (match r {
            Some(p) => parse_args_graph(args@) == Some((p.0@, p.1@, p.2, p.3, p.4)),
            None => parse_args_graph(args@) is None,
        }),
{
    assert(args@.skip(0) =~= args@);
    let (n, h) = match read_arr_header(args, 0) {
        Some(p) => p,
        None => {
            return None;
        },
    };
    if n != 5 {
        return None;
    }
    let (a, p1) = match read_str(args, h) {
        Some(p) => p,
        None => {
            return None;
        },
    };
    let (b, p2) = match read_str(args, p1) {
        Some(p) => p,
        None => {
            return None;
        },
    };
    let (po, p3) = match read_bool(args, p2) {
        Some(p) => p,
        None => {
            return None;
        },
    };
    let (ix, p4) = match read_uint(args, p3) {
        Some(p) => p,
        None => {
            return None;
        },
    };
    if ix >= 0x100000000u64 {
        return None;
    }
    let (ct, p5) = match read_uint(args, p4) {
        Some(p) => p,
        None => {
            return None;
        },
    };
    if ct >= 0x100000000u64 || p5 != args.len() {
        return None;
    }
    Some((a, b, po, ix as u32, ct as u32))
}

#[verifier::rlimit(60)]
fn read_args_scores(args: &Vec<u8>) -> (r: Option<ScoreQuery>)
    ensures
        (match r {
            Some(q) => parse_args_scores(args@) == Some(q@),
            None => parse_args_scores(args@) is None,
        }),
{
    assert(args@.skip(0) =~= args@);
    let (n, h) = match read_arr_header(args, 0) {
        Some(p) => p,
        None => {
            return None;
        },
    };
    if n != 9 {
        return None;
    }
    let (ego, p1) = match read_str(args, h) {
        Some(p) => p,
        None => {
            return None;
        },
    };
    let (kind, p2) = match read_str(args, p1) {
        Some(p) => p,
        None => {
            return None;
        },
    };
    let (hp, p3) = match read_bool(args, p2) {
        Some(p) => p,
        None => {
            return None;
        },
    };
    let (ub, p4) = match read_f64_bits(args, p3) {
        Some(p) => p,
        None => {
            return None;
        },
    };
    let (ui, p5) = match read_bool(args, p4) {
        Some(p) => p,
        None => {
            return None;
        },
    };
    let (lb, p6) = match read_f64_bits(args, p5) {
        Some(p) => p,
        None => {
            return None;
        },
    };
    let (li, p7) = match read_bool(args, p6) {
        Some(p) => p,
        None => {
            return None;
        },
    };
    let (ix, p8) = match read_uint(args, p7) {
        Some(p) => p,
        None => {
            return None;
        },
    };
    if ix >= 0x100000000u64 {
        return None;
    }
    let (ct, p9) = match read_uint(args, p8) {
        Some(p) => p,
        None => {
            return None;
        },
    };
    if ct >= 0x100000000u64 || p9 != args.len() {
        return None;
    }
    Some(
        ScoreQuery {
            ego: ego,
            kind: kind,
            hide_personal: hp,
            upper: Bound { value: Weight { bits: ub }, inclusive: ui },
            lower: Bound { value: Weight { bits: lb }, inclusive: li },
            index: ix as u32,
            count: ct as u32,
        },
    )
}

fn decode_op(tag: String, ctx: String, args: Vec<u8>) -> (r: Option<Command>)
    ensures
        (match r {
            Some(c) => parse_op(tag@, ctx@, args@) == Some(c@),
            None => parse_op(tag@, ctx@, args@) is None,
        }),
{
    if tag_is(&tag, "ver") {
        if ctx.as_str().is_empty() && read_args_nil(&args) {
            Some(Command::Version)
        } else {
            None
        }
    } else if tag_is(&tag, "node_score") {
        match read_args_str2(&args) {
            Some((e, t)) => Some(
                Command::NodeScore { context: read_target_from_wire(ctx), ego: e, target: t },
            ),
            None => None,
        }
    } else if tag_is(&tag, "node_score_null") {
        if !ctx.as_str().is_empty() {
            return None;
        }
        match read_args_str2(&args) {
            Some((e, t)) => Some(Command::NodeScoreLinearSum { ego: e, target: t }),
            None => None,
        }
    } else if tag_is(&tag, "scores") {
        match read_args_scores(&args) {
            Some(q) => Some(Command::Scores { context: read_target_from_wire(ctx), query: q }),
            None => None,
        }
    } else if tag_is(&tag, "scores_null") {
        if !ctx.as_str().is_empty() {
            return None;
        }
        match read_args_bare_str(&args) {
            Some(e) => Some(Command::ScoresLinearSum { ego: e }),
            None => None,
        }
    } else if tag_is(&tag, "graph") {
        match read_args_graph(&args) {
            Some((e, f, po, ix, ct)) => Some(
                Command::Graph {
                    context: read_target_from_wire(ctx),
                    ego: e,
                    focus: f,
                    positive_only: po,
                    index: ix,
                    count: ct,
                },
            ),
            None => None,
        }
    } else if tag_is(&tag, "node_list") {
        if read_args_nil(&args) {
            Some(Command::NodeList { context: read_target_from_wire(ctx) })
        } else {
            None
        }
    } else if tag_is(&tag, "edges") {
        if read_args_nil(&args) {
            Some(Command::EdgeList { context: read_target_from_wire(ctx) })
        } else {
            None
        }
    } else if tag_is(&tag, "connected") {
        match read_args_bare_str(&args) {
            Some(e) => Some(Command::Connected { context: read_target_from_wire(ctx), ego: e }),
            None => None,
        }
    } else if tag_is(&tag, "mutual_scores") {
        match read_args_bare_str(&args) {
            Some(e) => Some(
                Command::MutualScores { context: read_target_from_wire(ctx), ego: e },
            ),
            None => None,
        }
    } else if tag_is(&tag, "put_edge") {
        match read_args_put_edge(&args) {
            Some((s, d, w)) => Some(
                Command::PutEdge {
                    context: write_target_from_wire(ctx),
                    src: s,
                    dst: d,
                    weight: Weight { bits: w },
                },
            ),
            None => None,
        }
    } else if tag_is(&tag, "delete_edge") {
        match read_args_str2(&args) {
            Some((s, d)) => Some(
                Command::DeleteEdge { context: write_target_from_wire(ctx), src: s, dst: d },
            ),
            None => None,
        }
    } else if tag_is(&tag, "delete_node") {
        match read_args_str1(&args) {
            Some(s) => Some(Command::DeleteNode { context: write_target_from_wire(ctx), src: s }),
            None => None,
        }
    } else if tag_is(&tag, "reset") {
        if ctx.as_str().is_empty() && read_args_nil(&args) {
            Some(Command::Reset)
        } else {
            None
        }
    } else if tag_is(&tag, "recalculate_zero") {
        if ctx.as_str().is_empty() && read_args_nil(&args) {
            Some(Command::RecomputeZero)
        } else {
            None
        }
    } else if tag_is(&tag, "sync") {
        if ctx.as_str().is_empty() && read_args_nil(&args) {
            Some(Command::Synchronize)
        } else {
            None
        }
    } else if tag_is(&tag, "log_level") {
        if !ctx.as_str().is_empty() {
            return None;
        }
        match read_args_uint32(&args) {
            Some(v) => Some(Command::SetLogLevel { level: v }),
            None => None,
        }
    } else {
        None
    }
}

/// Deserializes a full envelope back into the command it encodes: the
/// engine-side reading of the same wire contract.
#[verifier::rlimit(60)]
pub fn decode_command(bytes: &Vec<u8>) -> (r: Option<Command>)
    ensures
        (match r {
            Some(c) => parse_command(bytes@) == Some(c@),
            None => parse_command(bytes@) is None,
        }),
{
    assert(bytes@.skip(0) =~= bytes@);
    let (n, h) = match read_arr_header(bytes, 0) {
        Some(p) => p,
        None => {
            return None;
        },
    };
    if n != 3 {
        return None;
    }
    let (tag, p1) = match read_str(bytes, h) {
        Some(p) => p,
        None => {
            return None;
        },
    };
    let (ctx, p2) = match read_str(bytes, p1) {
        Some(p) => p,
        None => {
            return None;
        },
    };
    let (args, p3) = match read_blob(bytes, p2) {
        Some(p) => p,
        None => {
            return None;
        },
    };
    if p3 != bytes.len() {
        return None;
    }
    decode_op(tag, ctx, args)
}

// ----------------------------------------------------------------
// Range filter validation
// ----------------------------------------------------------------

/// The upper bound that a query carries, given the caller's exclusive and
/// inclusive choices. An omitted bound becomes the greatest finite value,
/// exclusive, so the argument tuple keeps a fixed arity.
pub open spec fn resolved_upper(lt: Option<Weight>, lte: Option<Weight>) -> Bound {
    match lt {
        Some(w) => Bound { value: w, inclusive: false },
        None => match lte {
            Some(w) => Bound { value: w, inclusive: true },
            None => Bound { value: Weight { bits: UPPER_BOUND_DEFAULT_BITS }, inclusive: false },
        },
    }
}

/// The lower bound, likewise; an omitted bound becomes the least finite
/// value, exclusive.
pub open spec fn resolved_lower(gt: Option<Weight>, gte: Option<Weight>) -> Bound {
    match gt {
        Some(w) => Bound { value: w, inclusive: false },
        None => match gte {
            Some(w) => Bound { value: w, inclusive: true },
            None => Bound { value: Weight { bits: LOWER_BOUND_DEFAULT_BITS }, inclusive: false },
        },
    }
}

/// Builds the fixed-shape ranged score query from the caller's filter
/// choices. At most one of the two upper bounds and one of the two lower
/// bounds may be supplied: a conflict fails here, before any envelope is
/// built, so nothing ever reaches a transport.
pub fn scores_query(
    ego: String,
    kind: String,
    hide_personal: bool,
    lt: Option<Weight>,
    lte: Option<Weight>,
    gt: Option<Weight>,
    gte: Option<Weight>,
    index: u32,
    count: u32,
) -> (r: Result<ScoreQuery, EncodeError>)
    ensures
        r is Ok <==> !(lt is Some && lte is Some) && !(gt is Some && gte is Some),
        (r matches Err(e) ==> (e == EncodeError::ConflictingUpperBounds <==> lt is Some
            && lte is Some)),
        (r matches Err(e) ==> (e == EncodeError::ConflictingLowerBounds <==> !(lt is Some
            && lte is Some) && gt is Some && gte is Some)),
        (r matches Ok(q) ==> q@ == (ScoreQueryView {
            ego: ego@,
            kind: kind@,
            hide_personal: hide_personal,
            upper: resolved_upper(lt, lte),
            lower: resolved_lower(gt, gte),
            index: index,
            count: count,
        })),
{
    if lt.is_some() && lte.is_some() {
        return Err(EncodeError::ConflictingUpperBounds);
    }
    if gt.is_some() && gte.is_some() {
        return Err(EncodeError::ConflictingLowerBounds);
    }
    let upper = match lt {
        Some(w) => Bound { value: w, inclusive: false },
        None => match lte {
            Some(w) => Bound { value: w, inclusive: true },
            None => Bound { value: Weight { bits: UPPER_BOUND_DEFAULT_BITS }, inclusive: false },
        },
    };
    let lower = match gt {
        Some(w) => Bound { value: w, inclusive: false },
        None => match gte {
            Some(w) => Bound { value: w, inclusive: true },
            None => Bound { value: Weight { bits: LOWER_BOUND_DEFAULT_BITS }, inclusive: false },
        },
    };
    Ok(
        ScoreQuery {
            ego: ego,
            kind: kind,
            hide_personal: hide_personal,
            upper: upper,
            lower: lower,
            index: index,
            count: count,
        },
    )
}

// ----------------------------------------------------------------
// Round trip: parsing inverts encoding
// ----------------------------------------------------------------

/// Lengths of all opcode tags, and distinctness of those pairs that share
/// a length and meet in the parser's dispatch chain.
proof fn lemma_tags()
    ensures
        "ver"@.len() == 3,
        "node_score"@.len() == 10,
        "node_score_null"@.len() == 15,
        "scores"@.len() == 6,
        "scores_null"@.len() == 11,
        "graph"@.len() == 5,
        "node_list"@.len() == 9,
        "edges"@.len() == 5,
        "connected"@.len() == 9,
        "mutual_scores"@.len() == 13,
        "put_edge"@.len() == 8,
        "delete_edge"@.len() == 11,
        "delete_node"@.len() == 11,
        "reset"@.len() == 5,
        "recalculate_zero"@.len() == 16,
        "sync"@.len() == 4,
        "log_level"@.len() == 9,
        "edges"@ != "graph"@,
        "connected"@ != "node_list"@,
        "delete_edge"@ != "scores_null"@,
        "delete_node"@ != "scores_null"@,
        "delete_node"@ != "delete_edge"@,
        "reset"@ != "graph"@,
        "reset"@ != "edges"@,
        "log_level"@ != "node_list"@,
        "log_level"@ != "connected"@,
{
    reveal_strlit("ver");
    reveal_strlit("node_score");
    reveal_strlit("node_score_null");
    reveal_strlit("scores");
    reveal_strlit("scores_null");
    reveal_strlit("graph");
    reveal_strlit("node_list");
    reveal_strlit("edges");
    reveal_strlit("connected");
    reveal_strlit("mutual_scores");
    reveal_strlit("put_edge");
    reveal_strlit("delete_edge");
    reveal_strlit("delete_node");
    reveal_strlit("reset");
    reveal_strlit("recalculate_zero");
    reveal_strlit("sync");
    reveal_strlit("log_level");
    assert("edges"@[0] == 'e' && "graph"@[0] == 'g' && "reset"@[0] == 'r');
    assert("connected"@[0] == 'c' && "node_list"@[0] == 'n' && "log_level"@[0] == 'l');
    assert("delete_edge"@[0] == 'd' && "scores_null"@[0] == 's');
    assert("delete_node"@[7] == 'n' && "delete_edge"@[7] == 'e');
}

proof fn lemma_read_target_round(t: ReadTargetView)
    requires
        read_target_wf(t),
    ensures
        read_target_of_wire(read_target_wire(t)) == t,
{
}

proof fn lemma_write_target_round(t: WriteTargetView)
    requires
        write_target_wf(t),
    ensures
        write_target_of_wire(write_target_wire(t)) == t,
{
}

proof fn lemma_args_nil_round()
    ensures
        parse_args_nil(enc_nil()),
{
    assert(enc_nil()[0] == 0xc0u8);
}

proof fn lemma_args_uint32_round(v: u32)
    ensures
        parse_args_uint32(enc_uint(v as u64)) == Some(v),
{
    lemma_parse_uint_round(v as u64, Seq::empty());
    assert(enc_uint(v as u64) + Seq::<u8>::empty() =~= enc_uint(v as u64));
}

proof fn lemma_args_bare_str_round(t: Seq<char>)
    requires
        str_encodable(t),
    ensures
        parse_args_bare_str(enc_str(t)) == Some(t),
{
    lemma_parse_str_round(t, Seq::empty());
    assert(enc_str(t) + Seq::<u8>::empty() =~= enc_str(t));
}

proof fn lemma_args_str1_round(a: Seq<char>)
    requires
        str_encodable(a),
    ensures
        parse_args_str1(arr_header(1) + enc_str(a)) == Some(a),
{
    let args = arr_header(1) + enc_str(a);
    lemma_parse_arr_header_round(1, enc_str(a));
    assert(parse_arr_header(args) == Some((1int, 1int)));
    assert(args.skip(1) =~= enc_str(a));
    lemma_parse_str_round(a, Seq::empty());
    assert(enc_str(a) + Seq::<u8>::empty() =~= enc_str(a));
}

proof fn lemma_args_str2_round(a: Seq<char>, b: Seq<char>)
    requires
        str_encodable(a),
        str_encodable(b),
    ensures
        parse_args_str2(arr_header(2) + enc_str(a) + enc_str(b)) == Some((a, b)),
{
    let args = arr_header(2) + enc_str(a) + enc_str(b);
    assert(args =~= arr_header(2) + (enc_str(a) + enc_str(b)));
    lemma_parse_arr_header_round(2, enc_str(a) + enc_str(b));
    assert(parse_arr_header(args) == Some((2int, 1int)));
    assert(args.skip(1) =~= enc_str(a) + enc_str(b));
    lemma_parse_str_round(a, enc_str(b));
    let k1 = enc_str(a).len() as int;
    assert(parse_str(args.skip(1)) == Some((a, k1)));
    assert(args.skip(1 + k1) =~= enc_str(b));
    lemma_parse_str_round(b, Seq::empty());
    assert(enc_str(b) + Seq::<u8>::empty() =~= enc_str(b));
    assert(parse_str(args.skip(1 + k1)) == Some((b, enc_str(b).len() as int)));
}

proof fn lemma_args_put_edge_round(a: Seq<char>, b: Seq<char>, w: u64)
    requires
        str_encodable(a),
        str_encodable(b),
    ensures
        parse_args_put_edge(arr_header(3) + enc_str(a) + enc_str(b) + enc_f64_bits(w))
            == Some((a, b, w)),
{
    let args = arr_header(3) + enc_str(a) + enc_str(b) + enc_f64_bits(w);
    assert(args =~= arr_header(3) + (enc_str(a) + (enc_str(b) + enc_f64_bits(w))));
    lemma_parse_arr_header_round(3, enc_str(a) + (enc_str(b) + enc_f64_bits(w)));
    assert(parse_arr_header(args) == Some((3int, 1int)));
    assert(args.skip(1) =~= enc_str(a) + (enc_str(b) + enc_f64_bits(w)));
    lemma_parse_str_round(a, enc_str(b) + enc_f64_bits(w));
    let k1 = enc_str(a).len() as int;
    assert(parse_str(args.skip(1)) == Some((a, k1)));
    assert(args.skip(1 + k1) =~= enc_str(b) + enc_f64_bits(w));
    lemma_parse_str_round(b, enc_f64_bits(w));
    let k2 = enc_str(b).len() as int;
    assert(parse_str(args.skip(1 + k1)) == Some((b, k2)));
    assert(args.skip(1 + k1 + k2) =~= enc_f64_bits(w));
    lemma_parse_f64_bits_round(w, Seq::empty());
    assert(enc_f64_bits(w) + Seq::<u8>::empty() =~= enc_f64_bits(w));
    assert(parse_f64_bits(args.skip(1 + k1 + k2)) == Some((w, 9int)));
}

#[verifier::rlimit(100)]
proof fn lemma_args_graph_round(a: Seq<char>, b: Seq<char>, po: bool, ix: u32, ct: u32)
    requires
        str_encodable(a),
        str_encodable(b),
    ensures
        parse_args_graph(
            arr_header(5) + enc_str(a) + enc_str(b) + enc_bool(po) + enc_uint(ix as u64)
                + enc_uint(ct as u64),
        ) == Some((a, b, po, ix, ct)),
{
    let e1 = enc_str(a);
    let e2 = enc_str(b);
    let e3 = enc_bool(po);
    let e4 = enc_uint(ix as u64);
    let e5 = enc_uint(ct as u64);
    let t5 = e5;
    let t4 = e4 + t5;
    let t3 = e3 + t4;
    let t2 = e2 + t3;
    let t1 = e1 + t2;
    let args = arr_header(5) + e1 + e2 + e3 + e4 + e5;
    let k1 = e1.len() as int;
    let k2 = e2.len() as int;
    let k4 = e4.len() as int;
    lemma_rotate_right(
        arr_header(5),
        e1,
        e2,
        e3,
        e4,
        e5,
        Seq::empty(),
        Seq::empty(),
        Seq::empty(),
        Seq::empty(),
    );
    assert(args + Seq::<u8>::empty() + Seq::<u8>::empty() + Seq::<u8>::empty()
        + Seq::<u8>::empty() =~= args);
    assert(t1 + Seq::<u8>::empty() =~= t1);
    assert(e5 + (Seq::<u8>::empty() + (Seq::<u8>::empty() + (Seq::<u8>::empty()
        + Seq::<u8>::empty()))) =~= e5);
    assert(args == arr_header(5) + t1);
    assert(args.skip(0) =~= args);
    lemma_skip_peel(args, arr_header(5), t1, 0);
    lemma_skip_peel(args, e1, t2, 1);
    lemma_skip_peel(args, e2, t3, 1 + k1);
    lemma_skip_peel(args, e3, t4, 1 + k1 + k2);
    lemma_skip_peel(args, e4, t5, 1 + k1 + k2 + 1);
    lemma_parse_arr_header_round(5, t1);
    lemma_parse_str_round(a, t2);
    lemma_parse_str_round(b, t3);
    assert(parse_bool(t3) == Some((po, 1int)));
    lemma_parse_uint_round(ix as u64, t5);
    lemma_parse_uint_round(ct as u64, Seq::empty());
    assert(e5 + Seq::<u8>::empty() =~= e5);
    assert(1 + k1 + k2 + 1 + k4 + e5.len() == args.len());
}

/// Reassociates a ten segment concatenation to the right.
proof fn lemma_rotate_right(
    h: Seq<u8>,
    e1: Seq<u8>,
    e2: Seq<u8>,
    e3: Seq<u8>,
    e4: Seq<u8>,
    e5: Seq<u8>,
    e6: Seq<u8>,
    e7: Seq<u8>,
    e8: Seq<u8>,
    e9: Seq<u8>,
)
    ensures
        h + e1 + e2 + e3 + e4 + e5 + e6 + e7 + e8 + e9 == h + (e1 + (e2 + (e3 + (e4 + (e5 + (e6
            + (e7 + (e8 + e9)))))))),
{
    let l0 = h;
    let l1 = l0 + e1;
    let l2 = l1 + e2;
    let l3 = l2 + e3;
    let l4 = l3 + e4;
    let l5 = l4 + e5;
    let l6 = l5 + e6;
    let l7 = l6 + e7;
    let l8 = l7 + e8;
    assert(l8 + e9 =~= l7 + (e8 + e9));
    assert(l7 + (e8 + e9) =~= l6 + (e7 + (e8 + e9)));
    assert(l6 + (e7 + (e8 + e9)) =~= l5 + (e6 + (e7 + (e8 + e9))));
    assert(l5 + (e6 + (e7 + (e8 + e9))) =~= l4 + (e5 + (e6 + (e7 + (e8 + e9)))));
    assert(l4 + (e5 + (e6 + (e7 + (e8 + e9)))) =~= l3 + (e4 + (e5 + (e6 + (e7 + (e8 + e9))))));
    assert(l3 + (e4 + (e5 + (e6 + (e7 + (e8 + e9))))) =~= l2 + (e3 + (e4 + (e5 + (e6 + (e7 + (e8
        + e9)))))));
    assert(l2 + (e3 + (e4 + (e5 + (e6 + (e7 + (e8 + e9)))))) =~= l1 + (e2 + (e3 + (e4 + (e5 + (
    e6 + (e7 + (e8 + e9))))))));
    assert(l1 + (e2 + (e3 + (e4 + (e5 + (e6 + (e7 + (e8 + e9))))))) =~= l0 + (e1 + (e2 + (e3 + (
    e4 + (e5 + (e6 + (e7 + (e8 + e9)))))))));
}

#[verifier::rlimit(100)]
proof fn lemma_args_scores_head(q: ScoreQueryView, args: Seq<u8>)
    requires
        str_encodable(q.ego),
        str_encodable(q.kind),
        args == arr_header(9) + enc_str(q.ego) + enc_str(q.kind) + enc_bool(q.hide_personal)
            + enc_f64_bits(q.upper.value.bits) + enc_bool(q.upper.inclusive) + enc_f64_bits(
            q.lower.value.bits,
        ) + enc_bool(q.lower.inclusive) + enc_uint(q.index as u64) + enc_uint(q.count as u64),
    ensures
        parse_arr_header(args) == Some((9int, 1int)),
        parse_str(args.skip(1)) == Some((q.ego, enc_str(q.ego).len() as int)),
        parse_str(args.skip(1 + enc_str(q.ego).len() as int)) == Some((
            q.kind,
            enc_str(q.kind).len() as int,
        )),
        args.skip(1 + enc_str(q.ego).len() as int + enc_str(q.kind).len() as int) == enc_bool(
            q.hide_personal,
        ) + (enc_f64_bits(q.upper.value.bits) + (enc_bool(q.upper.inclusive) + (enc_f64_bits(
            q.lower.value.bits,
        ) + (enc_bool(q.lower.inclusive) + (enc_uint(q.index as u64) + enc_uint(
            q.count as u64,
        )))))),
        args.len() == 1 + enc_str(q.ego).len() + enc_str(q.kind).len() + args.skip(
            1 + enc_str(q.ego).len() as int + enc_str(q.kind).len() as int,
        ).len(),
{
    let e1 = enc_str(q.ego);
    let e2 = enc_str(q.kind);
    let e3 = enc_bool(q.hide_personal);
    let e4 = enc_f64_bits(q.upper.value.bits);
    let e5 = enc_bool(q.upper.inclusive);
    let e6 = enc_f64_bits(q.lower.value.bits);
    let e7 = enc_bool(q.lower.inclusive);
    let e8 = enc_uint(q.index as u64);
    let e9 = enc_uint(q.count as u64);
    let t3 = e3 + (e4 + (e5 + (e6 + (e7 + (e8 + e9)))));
    let t2 = e2 + t3;
    let t1 = e1 + t2;
    lemma_rotate_right(arr_header(9), e1, e2, e3, e4, e5, e6, e7, e8, e9);
    assert(args.skip(0) =~= args);
    lemma_skip_peel(args, arr_header(9), t1, 0);
    lemma_skip_peel(args, e1, t2, 1);
    lemma_skip_peel(args, e2, t3, 1 + e1.len() as int);
    lemma_parse_arr_header_round(9, t1);
    lemma_parse_str_round(q.ego, t2);
    lemma_parse_str_round(q.kind, t3);
}

#[verifier::rlimit(100)]
proof fn lemma_args_scores_tail(q: ScoreQueryView, s: Seq<u8>)
    requires
        s == enc_bool(q.hide_personal) + (enc_f64_bits(q.upper.value.bits) + (enc_bool(
            q.upper.inclusive,
        ) + (enc_f64_bits(q.lower.value.bits) + (enc_bool(q.lower.inclusive) + (enc_uint(
            q.index as u64,
        ) + enc_uint(q.count as u64)))))),
    ensures
        parse_bool(s) == Some((q.hide_personal, 1int)),
        parse_f64_bits(s.skip(1)) == Some((q.upper.value.bits, 9int)),
        parse_bool(s.skip(10)) == Some((q.upper.inclusive, 1int)),
        parse_f64_bits(s.skip(11)) == Some((q.lower.value.bits, 9int)),
        parse_bool(s.skip(20)) == Some((q.lower.inclusive, 1int)),
        parse_uint(s.skip(21)) == Some((q.index as u64, enc_uint(q.index as u64).len() as int)),
        parse_uint(s.skip(21 + enc_uint(q.index as u64).len() as int)) == Some((
            q.count as u64,
            enc_uint(q.count as u64).len() as int,
        )),
        s.len() == 21 + enc_uint(q.index as u64).len() + enc_uint(q.count as u64).len(),
{
    let e3 = enc_bool(q.hide_personal);
    let e4 = enc_f64_bits(q.upper.value.bits);
    let e5 = enc_bool(q.upper.inclusive);
    let e6 = enc_f64_bits(q.lower.value.bits);
    let e7 = enc_bool(q.lower.inclusive);
    let e8 = enc_uint(q.index as u64);
    let e9 = enc_uint(q.count as u64);
    let t4 = e4 + (e5 + (e6 + (e7 + (e8 + e9))));
    let t5 = e5 + (e6 + (e7 + (e8 + e9)));
    let t6 = e6 + (e7 + (e8 + e9));
    let t7 = e7 + (e8 + e9);
    let t8 = e8 + e9;
    assert(s.skip(0) =~= s);
    lemma_skip_peel(s, e3, t4, 0);
    lemma_skip_peel(s, e4, t5, 1);
    lemma_skip_peel(s, e5, t6, 10);
    lemma_skip_peel(s, e6, t7, 11);
    lemma_skip_peel(s, e7, t8, 20);
    lemma_skip_peel(s, e8, e9, 21);
    assert(parse_bool(s) == Some((q.hide_personal, 1int)));
    lemma_parse_f64_bits_round(q.upper.value.bits, t5);
    assert(parse_bool(t5) == Some((q.upper.inclusive, 1int)));
    lemma_parse_f64_bits_round(q.lower.value.bits, t7);
    assert(parse_bool(t7) == Some((q.lower.inclusive, 1int)));
    lemma_parse_uint_round(q.index as u64, e9);
    lemma_parse_uint_round(q.count as u64, Seq::empty());
    assert(e9 + Seq::<u8>::empty() =~= e9);
}

#[verifier::rlimit(100)]
proof fn lemma_args_scores_round(q: ScoreQueryView)
    requires
        str_encodable(q.ego),
        str_encodable(q.kind),
    ensures
        parse_args_scores(
            arr_header(9) + enc_str(q.ego) + enc_str(q.kind) + enc_bool(q.hide_personal)
                + enc_f64_bits(q.upper.value.bits) + enc_bool(q.upper.inclusive) + enc_f64_bits(
                q.lower.value.bits,
            ) + enc_bool(q.lower.inclusive) + enc_uint(q.index as u64) + enc_uint(
                q.count as u64,
            ),
        ) == Some(q),
{
    let args = arr_header(9) + enc_str(q.ego) + enc_str(q.kind) + enc_bool(q.hide_personal)
        + enc_f64_bits(q.upper.value.bits) + enc_bool(q.upper.inclusive) + enc_f64_bits(
        q.lower.value.bits,
    ) + enc_bool(q.lower.inclusive) + enc_uint(q.index as u64) + enc_uint(q.count as u64);
    let k1 = enc_str(q.ego).len() as int;
    let k2 = enc_str(q.kind).len() as int;
    let k8 = enc_uint(q.index as u64).len() as int;
    let p3 = 1 + k1 + k2;
    lemma_args_scores_head(q, args);
    let tail = args.skip(p3);
    lemma_args_scores_tail(q, tail);
    lemma_skip_skip(args, p3, 1);
    lemma_skip_skip(args, p3, 10);
    lemma_skip_skip(args, p3, 11);
    lemma_skip_skip(args, p3, 20);
    lemma_skip_skip(args, p3, 21);
    lemma_skip_skip(args, p3, 21 + k8);
    assert(parse_args_scores(args) == Some(q));
}

/// The parsed envelope hands its three parts to the opcode dispatcher.
proof fn lemma_envelope_round(tag: Seq<char>, ctx: Seq<char>, args: Seq<u8>)
    requires
        str_encodable(tag),
        str_encodable(ctx),
        blob_encodable(args),
    ensures
        parse_command(arr_header(3) + enc_str(tag) + enc_str(ctx) + enc_blob(args))
            == parse_op(tag, ctx, args),
{
    let s = arr_header(3) + enc_str(tag) + enc_str(ctx) + enc_blob(args);
    let r1 = enc_str(tag) + (enc_str(ctx) + enc_blob(args));
    assert(s =~= arr_header(3) + r1);
    lemma_parse_arr_header_round(3, r1);
    assert(parse_arr_header(s) == Some((3int, 1int)));
    assert(s.skip(1) =~= r1);
    lemma_parse_str_round(tag, enc_str(ctx) + enc_blob(args));
    let a = enc_str(tag).len() as int;
    assert(parse_str(s.skip(1)) == Some((tag, a)));
    assert(s.skip(1 + a) =~= enc_str(ctx) + enc_blob(args));
    lemma_parse_str_round(ctx, enc_blob(args));
    let b = enc_str(ctx).len() as int;
    assert(parse_str(s.skip(1 + a)) == Some((ctx, b)));
    assert(s.skip(1 + a + b) =~= enc_blob(args));
    lemma_parse_blob_round(args, Seq::empty());
    assert(enc_blob(args) + Seq::<u8>::empty() =~= enc_blob(args));
    assert(parse_blob(s.skip(1 + a + b)) == Some((args, enc_blob(args).len() as int)));
}

/// Round trip: decoding a well-formed command's envelope yields the very
/// same command, for every opcode and argument tuple.
#[verifier::rlimit(100)]
pub proof fn lemma_command_round_trip(v: CommandView)
    requires
        cmd_wf(v),
    ensures
        parse_command(enc_command(v)) == Some(v),
{
    lemma_tags();
    let tag = opcode_of(v);
    let ctx = wire_context_of(v);
    let args = enc_args(v);
    lemma_envelope_round(tag, ctx, args);
    match v {
        CommandView::Version => {
            lemma_args_nil_round();
        },
        CommandView::NodeScore { context, ego, target } => {
            lemma_args_str2_round(ego, target);
            lemma_read_target_round(context);
        },
        CommandView::NodeScoreLinearSum { ego, target } => {
            lemma_args_str2_round(ego, target);
        },
        CommandView::Scores { context, query } => {
            lemma_args_scores_round(query);
            lemma_read_target_round(context);
        },
        CommandView::ScoresLinearSum { ego } => {
            lemma_args_bare_str_round(ego);
        },
        CommandView::Graph { context, ego, focus, positive_only, index, count } => {
            lemma_args_graph_round(ego, focus, positive_only, index, count);
            lemma_read_target_round(context);
        },
        CommandView::NodeList { context } => {
            lemma_args_nil_round();
            lemma_read_target_round(context);
        },
        CommandView::EdgeList { context } => {
            lemma_args_nil_round();
            lemma_read_target_round(context);
        },
        CommandView::Connected { context, ego } => {
            lemma_args_bare_str_round(ego);
            lemma_read_target_round(context);
        },
        CommandView::MutualScores { context, ego } => {
            lemma_args_bare_str_round(ego);
            lemma_read_target_round(context);
        },
        CommandView::PutEdge { context, src, dst, weight } => {
            lemma_args_put_edge_round(src, dst, weight.bits);
            lemma_write_target_round(context);
        },
        CommandView::DeleteEdge { context, src, dst } => {
            lemma_args_str2_round(src, dst);
            lemma_write_target_round(context);
        },
        CommandView::DeleteNode { context, src } => {
            lemma_args_str1_round(src);
            lemma_write_target_round(context);
        },
        CommandView::Reset => {
            lemma_args_nil_round();
        },
        CommandView::RecomputeZero => {
            lemma_args_nil_round();
        },
        CommandView::Synchronize => {
            lemma_args_nil_round();
        },
        CommandView::SetLogLevel { level } => {
            lemma_args_uint32_round(level);
        },
    }
}

} // verus!
