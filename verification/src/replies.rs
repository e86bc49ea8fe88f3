//! Decoding engine replies.
//!
//! The wire format does not distinguish a typed payload from an error
//! report at the framing level: the engine answers either with the typed
//! value the call expects or with a single string carrying its own error
//! message, and both are plausible decodes of the same bytes. Decoding is
//! therefore a two stage, ordered fallback: the typed decode is attempted
//! first, and only when it fails is the string sentinel tried, so a
//! legitimate typed reply can never be masked by a degenerate string
//! decode. Bytes that fit neither shape are a malformed reply, distinct
//! from an engine-reported error.

use vstd::prelude::*;

verus! {

use crate::wire::{parse_nil, parse_str, parse_f64_bits, parse_arr_header, read_nil,
    read_str, read_f64_bits, read_arr_header, lemma_skip_skip};
use crate::commands::Weight;

/// How a call fails after the engine has answered.
#[derive(Debug)]
pub enum ReplyError {
    /// The reply decoded as the string sentinel: an error the engine chose
    /// to report, carried verbatim.
    Service(String),
    /// The reply matches neither the expected typed shape nor the string
    /// sentinel: a protocol mismatch or corrupted payload.
    Malformed,
}

/// One row of a score list: the scored edge from `ego` to `target`.
pub struct ScoreRecord {
    pub ego: String,
    pub target: String,
    pub score: Weight,
}

pub struct ScoreRecordView {
    pub ego: Seq<char>,
    pub target: Seq<char>,
    pub score: Weight,
}

impl View for ScoreRecord {
    type V = ScoreRecordView;

    open spec fn view(&self) -> ScoreRecordView {
        ScoreRecordView { ego: self.ego@, target: self.target@, score: self.score }
    }
}

/// One row of a connectivity list.
pub struct LinkRecord {
    pub ego: String,
    pub target: String,
}

pub struct LinkRecordView {
    pub ego: Seq<char>,
    pub target: Seq<char>,
}

impl View for LinkRecord {
    type V = LinkRecordView;

    open spec fn view(&self) -> LinkRecordView {
        LinkRecordView { ego: self.ego@, target: self.target@ }
    }
}

/// One row of a mutual score list: a peer, its score as seen from the
/// caller's node, and the caller's score as seen from the peer.
pub struct MutualScoreRecord {
    pub peer: String,
    pub peer_score: Weight,
    pub ego_score: Weight,
}

pub struct MutualScoreRecordView {
    pub peer: Seq<char>,
    pub peer_score: Weight,
    pub ego_score: Weight,
}

impl View for MutualScoreRecord {
    type V = MutualScoreRecordView;

    open spec fn view(&self) -> MutualScoreRecordView {
        MutualScoreRecordView {
            peer: self.peer@,
            peer_score: self.peer_score,
            ego_score: self.ego_score,
        }
    }
}

// ----------------------------------------------------------------
// Spec-level reply grammars, each consuming the whole payload
// ----------------------------------------------------------------

/// The string sentinel: the whole payload is one string.
pub open spec fn parse_text(s: Seq<u8>) -> Option<Seq<char>> {
    match parse_str(s) {
        Some((t, k)) => if k == s.len() {
            Some(t)
        } else {
            None
        },
        None => None,
    }
}

/// A unit acknowledgment: the whole payload is one nil.
pub open spec fn parse_ack(s: Seq<u8>) -> bool {
    match parse_nil(s) {
        Some(k) => k == s.len(),
        None => false,
    }
}

pub open spec fn parse_score_record(s: Seq<u8>) -> Option<(ScoreRecordView, int)> {
    match parse_arr_header(s) {
        Some((n, h)) => if n == 3 {
            match parse_str(s.skip(h)) {
                Some((a, k1)) => match parse_str(s.skip(h + k1)) {
                    Some((b, k2)) => match parse_f64_bits(s.skip(h + k1 + k2)) {
                        Some((w, k3)) => Some(
                            (
                                ScoreRecordView { ego: a, target: b, score: Weight { bits: w } },
                                h + k1 + k2 + k3,
                            ),
                        ),
                        None => None,
                    },
                    None => None,
                },
                None => None,
            }
        } else {
            None
        },
        None => None,
    }
}

pub open spec fn parse_name_record(s: Seq<u8>) -> Option<(Seq<char>, int)> {
    match parse_arr_header(s) {
        Some((n, h)) => if n == 1 {
            match parse_str(s.skip(h)) {
                Some((a, k1)) => Some((a, h + k1)),
                None => None,
            }
        } else {
            None
        },
        None => None,
    }
}

pub open spec fn parse_link_record(s: Seq<u8>) -> Option<(LinkRecordView, int)> {
    match parse_arr_header(s) {
        Some((n, h)) => if n == 2 {
            match parse_str(s.skip(h)) {
                Some((a, k1)) => match parse_str(s.skip(h + k1)) {
                    Some((b, k2)) => Some((LinkRecordView { ego: a, target: b }, h + k1 + k2)),
                    None => None,
                },
                None => None,
            }
        } else {
            None
        },
        None => None,
    }
}

pub open spec fn parse_mutual_record(s: Seq<u8>) -> Option<(MutualScoreRecordView, int)> {
    match parse_arr_header(s) {
        Some((n, h)) => if n == 3 {
            match parse_str(s.skip(h)) {
                Some((a, k1)) => match parse_f64_bits(s.skip(h + k1)) {
                    Some((x, k2)) => match parse_f64_bits(s.skip(h + k1 + k2)) {
                        Some((y, k3)) => Some(
                            (
                                MutualScoreRecordView {
                                    peer: a,
                                    peer_score: Weight { bits: x },
                                    ego_score: Weight { bits: y },
                                },
                                h + k1 + k2 + k3,
                            ),
                        ),
                        None => None,
                    },
                    None => None,
                },
                None => None,
            }
        } else {
            None
        },
        None => None,
    }
}

pub open spec fn parse_score_items(s: Seq<u8>, n: nat) -> Option<(Seq<ScoreRecordView>, int)>
    decreases n,
{
    if n == 0 {
        Some((Seq::empty(), 0int))
    } else {
        match parse_score_record(s) {
            Some((r, k)) => match parse_score_items(s.skip(k), (n - 1) as nat) {
                Some(p) => Some((seq![r] + p.0, k + p.1)),
                None => None,
            },
            None => None,
        }
    }
}

pub open spec fn parse_name_items(s: Seq<u8>, n: nat) -> Option<(Seq<Seq<char>>, int)>
    decreases n,
{
    if n == 0 {
        Some((Seq::empty(), 0int))
    } else {
        match parse_name_record(s) {
            Some((r, k)) => match parse_name_items(s.skip(k), (n - 1) as nat) {
                Some(p) => Some((seq![r] + p.0, k + p.1)),
                None => None,
            },
            None => None,
        }
    }
}

pub open spec fn parse_link_items(s: Seq<u8>, n: nat) -> Option<(Seq<LinkRecordView>, int)>
    decreases n,
{
    if n == 0 {
        Some((Seq::empty(), 0int))
    } else {
        match parse_link_record(s) {
            Some((r, k)) => match parse_link_items(s.skip(k), (n - 1) as nat) {
                Some(p) => Some((seq![r] + p.0, k + p.1)),
                None => None,
            },
            None => None,
        }
    }
}

pub open spec fn parse_mutual_items(s: Seq<u8>, n: nat) -> Option<
    (Seq<MutualScoreRecordView>, int),
>
    decreases n,
{
    if n == 0 {
        Some((Seq::empty(), 0int))
    } else {
        match parse_mutual_record(s) {
            Some((r, k)) => match parse_mutual_items(s.skip(k), (n - 1) as nat) {
                Some(p) => Some((seq![r] + p.0, k + p.1)),
                None => None,
            },
            None => None,
        }
    }
}

pub open spec fn parse_score_list(s: Seq<u8>) -> Option<Seq<ScoreRecordView>> {
    match parse_arr_header(s) {
        Some((n, h)) => if n >= 0 {
            match parse_score_items(s.skip(h), n as nat) {
                Some(p) => if h + p.1 == s.len() {
                    Some(p.0)
                } else {
                    None
                },
                None => None,
            }
        } else {
            None
        },
        None => None,
    }
}

pub open spec fn parse_name_list(s: Seq<u8>) -> Option<Seq<Seq<char>>> {
    match parse_arr_header(s) {
        Some((n, h)) => if n >= 0 {
            match parse_name_items(s.skip(h), n as nat) {
                Some(p) => if h + p.1 == s.len() {
                    Some(p.0)
                } else {
                    None
                },
                None => None,
            }
        } else {
            None
        },
        None => None,
    }
}

pub open spec fn parse_link_list(s: Seq<u8>) -> Option<Seq<LinkRecordView>> {
    match parse_arr_header(s) {
        Some((n, h)) => if n >= 0 {
            match parse_link_items(s.skip(h), n as nat) {
                Some(p) => if h + p.1 == s.len() {
                    Some(p.0)
                } else {
                    None
                },
                None => None,
            }
        } else {
            None
        },
        None => None,
    }
}

pub open spec fn parse_mutual_list(s: Seq<u8>) -> Option<Seq<MutualScoreRecordView>> {
    match parse_arr_header(s) {
        Some((n, h)) => if n >= 0 {
            match parse_mutual_items(s.skip(h), n as nat) {
                Some(p) => if h + p.1 == s.len() {
                    Some(p.0)
                } else {
                    None
                },
                None => None,
            }
        } else {
            None
        },
        None => None,
    }
}

pub open spec fn score_records_view(v: Seq<ScoreRecord>) -> Seq<ScoreRecordView> {
    v.map_values(|r: ScoreRecord| r@)
}

pub open spec fn names_view(v: Seq<String>) -> Seq<Seq<char>> {
    v.map_values(|s: String| s@)
}

pub open spec fn link_records_view(v: Seq<LinkRecord>) -> Seq<LinkRecordView> {
    v.map_values(|r: LinkRecord| r@)
}

pub open spec fn mutual_records_view(v: Seq<MutualScoreRecord>) -> Seq<MutualScoreRecordView> {
    v.map_values(|r: MutualScoreRecord| r@)
}

/// What the fallback stages say about a failed call: an engine-reported
/// error exactly when the payload is the string sentinel, a malformed
/// reply exactly when it is not.
pub open spec fn fallback_describes(e: ReplyError, s: Seq<u8>) -> bool {
    match e {
        ReplyError::Service(m) => parse_text(s) == Some(m@),
        ReplyError::Malformed => parse_text(s) is None,
    }
}

// ----------------------------------------------------------------
// Executable record readers
// ----------------------------------------------------------------

fn read_score_record(buf: &Vec<u8>, pos: usize) -> (r: Option<(ScoreRecord, usize)>)
    requires
        pos <= buf@.len(),
    ensures
        (match r {
            Some(p) => {
                &&& pos <= p.1 <= buf@.len()
                &&& parse_score_record(buf@.skip(pos as int)) == Some((p.0@, p.1 - pos as int))
            },
            None => parse_score_record(buf@.skip(pos as int)) is None,
        }),
{
    let (n, h) = match read_arr_header(buf, pos) {
        Some(p) => p,
        None => {
            return None;
        },
    };
    if n != 3 {
        return None;
    }
    proof {
        lemma_skip_skip(buf@, pos as int, h - pos as int);
    }
    let (a, p1) = match read_str(buf, h) {
        Some(p) => p,
        None => {
            return None;
        },
    };
    proof {
        lemma_skip_skip(buf@, pos as int, p1 - pos as int);
    }
    let (b, p2) = match read_str(buf, p1) {
        Some(p) => p,
        None => {
            return None;
        },
    };
    proof {
        lemma_skip_skip(buf@, pos as int, p2 - pos as int);
    }
    let (w, p3) = match read_f64_bits(buf, p2) {
        Some(p) => p,
        None => {
            return None;
        },
    };
    Some((ScoreRecord { ego: a, target: b, score: Weight { bits: w } }, p3))
}

fn read_name_record(buf: &Vec<u8>, pos: usize) -> (r: Option<(String, usize)>)
    requires
        pos <= buf@.len(),
    ensures
        (match r {
            Some(p) => {
                &&& pos <= p.1 <= buf@.len()
                &&& parse_name_record(buf@.skip(pos as int)) == Some((p.0@, p.1 - pos as int))
            },
            None => parse_name_record(buf@.skip(pos as int)) is None,
        }),
{
    let (n, h) = match read_arr_header(buf, pos) {
        Some(p) => p,
        None => {
            return None;
        },
    };
    if n != 1 {
        return None;
    }
    proof {
        lemma_skip_skip(buf@, pos as int, h - pos as int);
    }
    match read_str(buf, h) {
        Some((a, p1)) => Some((a, p1)),
        None => None,
    }
}

fn read_link_record(buf: &Vec<u8>, pos: usize) -> (r: Option<(LinkRecord, usize)>)
    requires
        pos <= buf@.len(),
    ensures
        (match r {
            Some(p) => {
                &&& pos <= p.1 <= buf@.len()
                &&& parse_link_record(buf@.skip(pos as int)) == Some((p.0@, p.1 - pos as int))
            },
            None => parse_link_record(buf@.skip(pos as int)) is None,
        }),
{
    let (n, h) = match read_arr_header(buf, pos) {
        Some(p) => p,
        None => {
            return None;
        },
    };
    if n != 2 {
        return None;
    }
    proof {
        lemma_skip_skip(buf@, pos as int, h - pos as int);
    }
    let (a, p1) = match read_str(buf, h) {
        Some(p) => p,
        None => {
            return None;
        },
    };
    proof {
        lemma_skip_skip(buf@, pos as int, p1 - pos as int);
    }
    let (b, p2) = match read_str(buf, p1) {
        Some(p) => p,
        None => {
            return None;
        },
    };
    Some((LinkRecord { ego: a, target: b }, p2))
}

fn read_mutual_record(buf: &Vec<u8>, pos: usize) -> (r: Option<(MutualScoreRecord, usize)>)
    requires
        pos <= buf@.len(),
    ensures
        (match r {
            Some(p) => {
                &&& pos <= p.1 <= buf@.len()
                &&& parse_mutual_record(buf@.skip(pos as int)) == Some((p.0@, p.1 - pos as int))
            },
            None => parse_mutual_record(buf@.skip(pos as int)) is None,
        }),
{
    let (n, h) = match read_arr_header(buf, pos) {
        Some(p) => p,
        None => {
            return None;
        },
    };
    if n != 3 {
        return None;
    }
    proof {
        lemma_skip_skip(buf@, pos as int, h - pos as int);
    }
    let (a, p1) = match read_str(buf, h) {
        Some(p) => p,
        None => {
            return None;
        },
    };
    proof {
        lemma_skip_skip(buf@, pos as int, p1 - pos as int);
    }
    let (x, p2) = match read_f64_bits(buf, p1) {
        Some(p) => p,
        None => {
            return None;
        },
    };
    proof {
        lemma_skip_skip(buf@, pos as int, p2 - pos as int);
    }
    let (y, p3) = match read_f64_bits(buf, p2) {
        Some(p) => p,
        None => {
            return None;
        },
    };
    Some((MutualScoreRecord { peer: a, peer_score: Weight { bits: x }, ego_score: Weight {
        bits: y,
    } }, p3))
}

// ----------------------------------------------------------------
// Executable list readers
// ----------------------------------------------------------------

fn read_score_items(buf: &Vec<u8>, pos: usize, n: usize) -> (r: Option<(Vec<ScoreRecord>, usize)>)
    requires
        pos <= buf@.len(),
    ensures
        (match r {
            Some(p) => {
                &&& pos <= p.1 <= buf@.len()
                &&& parse_score_items(buf@.skip(pos as int), n as nat) == Some((
                    score_records_view(p.0@),
                    p.1 - pos as int,
                ))
            },
            None => parse_score_items(buf@.skip(pos as int), n as nat) is None,
        }),
    decreases n,
{
    if n == 0 {
        let empty: Vec<ScoreRecord> = Vec::new();
        assert(score_records_view(empty@) =~= Seq::<ScoreRecordView>::empty());
        return Some((empty, pos));
    }
    let (rec, k) = match read_score_record(buf, pos) {
        Some(p) => p,
        None => {
            return None;
        },
    };
    proof {
        lemma_skip_skip(buf@, pos as int, k - pos as int);
    }
    match read_score_items(buf, k, n - 1) {
        Some((mut w, end)) => {
            let ghost w0 = w@;
            w.insert(0, rec);
            assert(w@ =~= seq![rec] + w0);
            assert(score_records_view(w@) =~= seq![rec@] + score_records_view(w0));
            Some((w, end))
        },
        None => None,
    }
}

fn read_name_items(buf: &Vec<u8>, pos: usize, n: usize) -> (r: Option<(Vec<String>, usize)>)
    requires
        pos <= buf@.len(),
    ensures
        (match r {
            Some(p) => {
                &&& pos <= p.1 <= buf@.len()
                &&& parse_name_items(buf@.skip(pos as int), n as nat) == Some((
                    names_view(p.0@),
                    p.1 - pos as int,
                ))
            },
            None => parse_name_items(buf@.skip(pos as int), n as nat) is None,
        }),
    decreases n,
{
    if n == 0 {
        let empty: Vec<String> = Vec::new();
        assert(names_view(empty@) =~= Seq::<Seq<char>>::empty());
        return Some((empty, pos));
    }
    let (rec, k) = match read_name_record(buf, pos) {
        Some(p) => p,
        None => {
            return None;
        },
    };
    proof {
        lemma_skip_skip(buf@, pos as int, k - pos as int);
    }
    match read_name_items(buf, k, n - 1) {
        Some((mut w, end)) => {
            let ghost w0 = w@;
            w.insert(0, rec);
            assert(w@ =~= seq![rec] + w0);
            assert(names_view(w@) =~= seq![rec@] + names_view(w0));
            Some((w, end))
        },
        None => None,
    }
}

fn read_link_items(buf: &Vec<u8>, pos: usize, n: usize) -> (r: Option<(Vec<LinkRecord>, usize)>)
    requires
        pos <= buf@.len(),
    ensures
        (match r {
            Some(p) => {
                &&& pos <= p.1 <= buf@.len()
                &&& parse_link_items(buf@.skip(pos as int), n as nat) == Some((
                    link_records_view(p.0@),
                    p.1 - pos as int,
                ))
            },
            None => parse_link_items(buf@.skip(pos as int), n as nat) is None,
        }),
    decreases n,
{
    if n == 0 {
        let empty: Vec<LinkRecord> = Vec::new();
        assert(link_records_view(empty@) =~= Seq::<LinkRecordView>::empty());
        return Some((empty, pos));
    }
    let (rec, k) = match read_link_record(buf, pos) {
        Some(p) => p,
        None => {
            return None;
        },
    };
    proof {
        lemma_skip_skip(buf@, pos as int, k - pos as int);
    }
    match read_link_items(buf, k, n - 1) {
        Some((mut w, end)) => {
            let ghost w0 = w@;
            w.insert(0, rec);
            assert(w@ =~= seq![rec] + w0);
            assert(link_records_view(w@) =~= seq![rec@] + link_records_view(w0));
            Some((w, end))
        },
        None => None,
    }
}

fn read_mutual_items(buf: &Vec<u8>, pos: usize, n: usize) -> (r: Option<
    (Vec<MutualScoreRecord>, usize),
>)
    requires
        pos <= buf@.len(),
    ensures
        (match r {
            Some(p) => {
                &&& pos <= p.1 <= buf@.len()
                &&& parse_mutual_items(buf@.skip(pos as int), n as nat) == Some((
                    mutual_records_view(p.0@),
                    p.1 - pos as int,
                ))
            },
            None => parse_mutual_items(buf@.skip(pos as int), n as nat) is None,
        }),
    decreases n,
{
    if n == 0 {
        let empty: Vec<MutualScoreRecord> = Vec::new();
        assert(mutual_records_view(empty@) =~= Seq::<MutualScoreRecordView>::empty());
        return Some((empty, pos));
    }
    let (rec, k) = match read_mutual_record(buf, pos) {
        Some(p) => p,
        None => {
            return None;
        },
    };
    proof {
        lemma_skip_skip(buf@, pos as int, k - pos as int);
    }
    match read_mutual_items(buf, k, n - 1) {
        Some((mut w, end)) => {
            let ghost w0 = w@;
            w.insert(0, rec);
            assert(w@ =~= seq![rec] + w0);
            assert(mutual_records_view(w@) =~= seq![rec@] + mutual_records_view(w0));
            Some((w, end))
        },
        None => None,
    }
}

// ----------------------------------------------------------------
// Public decoders: typed first, then the string sentinel
// ----------------------------------------------------------------

/// The second stage of the fallback: reads the payload as the string
/// sentinel, or reports it malformed.
fn fallback_error(bytes: &Vec<u8>) -> (r: ReplyError)
    ensures
        fallback_describes(r, bytes@),
{
    assert(bytes@.skip(0) =~= bytes@);
    match read_str(bytes, 0) {
        Some((s, end)) => if end == bytes.len() {
            ReplyError::Service(s)
        } else {
            ReplyError::Malformed
        },
        None => ReplyError::Malformed,
    }
}

/// Decodes a reply expected to be a list of score records.
pub fn decode_score_records(bytes: &Vec<u8>) -> (r: Result<Vec<ScoreRecord>, ReplyError>)
    ensures
        r is Ok <==> parse_score_list(bytes@) is Some,
        (r matches Ok(v) ==> parse_score_list(bytes@) == Some(score_records_view(v@))),
        (r matches Err(e) ==> fallback_describes(e, bytes@)),
{
    assert(bytes@.skip(0) =~= bytes@);
    if let Some((n, h)) = read_arr_header(bytes, 0) {
        if let Some((v, end)) = read_score_items(bytes, h, n) {
            if end == bytes.len() {
                return Ok(v);
            }
        }
    }
    Err(fallback_error(bytes))
}

/// Decodes a reply expected to be a list of node names.
pub fn decode_node_names(bytes: &Vec<u8>) -> (r: Result<Vec<String>, ReplyError>)
    ensures
        r is Ok <==> parse_name_list(bytes@) is Some,
        (r matches Ok(v) ==> parse_name_list(bytes@) == Some(names_view(v@))),
        (r matches Err(e) ==> fallback_describes(e, bytes@)),
{
    assert(bytes@.skip(0) =~= bytes@);
    if let Some((n, h)) = read_arr_header(bytes, 0) {
        if let Some((v, end)) = read_name_items(bytes, h, n) {
            if end == bytes.len() {
                return Ok(v);
            }
        }
    }
    Err(fallback_error(bytes))
}

/// Decodes a reply expected to be a connectivity list.
pub fn decode_link_records(bytes: &Vec<u8>) -> (r: Result<Vec<LinkRecord>, ReplyError>)
    ensures
        r is Ok <==> parse_link_list(bytes@) is Some,
        (r matches Ok(v) ==> parse_link_list(bytes@) == Some(link_records_view(v@))),
        (r matches Err(e) ==> fallback_describes(e, bytes@)),
{
    assert(bytes@.skip(0) =~= bytes@);
    if let Some((n, h)) = read_arr_header(bytes, 0) {
        if let Some((v, end)) = read_link_items(bytes, h, n) {
            if end == bytes.len() {
                return Ok(v);
            }
        }
    }
    Err(fallback_error(bytes))
}

/// Decodes a reply expected to be a mutual score list.
pub fn decode_mutual_score_records(bytes: &Vec<u8>) -> (r: Result<
    Vec<MutualScoreRecord>,
    ReplyError,
>)
    ensures
        r is Ok <==> parse_mutual_list(bytes@) is Some,
        (r matches Ok(v) ==> parse_mutual_list(bytes@) == Some(mutual_records_view(v@))),
        (r matches Err(e) ==> fallback_describes(e, bytes@)),
{
    assert(bytes@.skip(0) =~= bytes@);
    if let Some((n, h)) = read_arr_header(bytes, 0) {
        if let Some((v, end)) = read_mutual_items(bytes, h, n) {
            if end == bytes.len() {
                return Ok(v);
            }
        }
    }
    Err(fallback_error(bytes))
}

/// Decodes a unit acknowledgment.
pub fn decode_ack(bytes: &Vec<u8>) -> (r: Result<(), ReplyError>)
    ensures
        r is Ok <==> parse_ack(bytes@),
        (r matches Err(e) ==> fallback_describes(e, bytes@)),
{
    assert(bytes@.skip(0) =~= bytes@);
    if let Some(end) = read_nil(bytes, 0) {
        if end == bytes.len() {
            return Ok(());
        }
    }
    Err(fallback_error(bytes))
}

/// Decodes a reply expected to be a single string, such as the engine's
/// version report. The typed shape and the sentinel coincide here, so a
/// failure can only be a malformed reply.
pub fn decode_text(bytes: &Vec<u8>) -> (r: Result<String, ReplyError>)
    ensures
        r is Ok <==> parse_text(bytes@) is Some,
        (r matches Ok(s) ==> parse_text(bytes@) == Some(s@)),
        (r matches Err(e) ==> e is Malformed && parse_text(bytes@) is None),
{
    assert(bytes@.skip(0) =~= bytes@);
    if let Some((s, end)) = read_str(bytes, 0) {
        if end == bytes.len() {
            return Ok(s);
        }
    }
    Err(ReplyError::Malformed)
}

} // verus!
