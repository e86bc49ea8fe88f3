//! The call plan: which bytes to send and how long to wait.
//!
//! Configuration is read once at process start and treated as immutable;
//! the library only consumes it. Each call is one request/reply round
//! trip: destructive administrative commands wait indefinitely for their
//! acknowledgment, synchronize waits as long as the caller chose, and
//! every other call is bounded by the configured receive timeout.

use vstd::prelude::*;

verus! {

use crate::commands::{Command, CommandView, EncodeError, cmd_wf, cmd_context_wf, enc_command};

/// The receive timeout applied when the caller of synchronize does not
/// choose one, in milliseconds.
pub const DEFAULT_SYNC_TIMEOUT_MSEC: u64 = 60000;

/// The default receive timeout for ordinary calls, in milliseconds.
pub const DEFAULT_RECV_TIMEOUT_MSEC: u64 = 10000;

/// Immutable per-process configuration: where the engine listens and how
/// long an ordinary call waits for its reply.
pub struct Config {
    pub url: String,
    pub recv_timeout_msec: u64,
}

impl Default for Config {
    /// The stock configuration: the engine's conventional local endpoint
    /// and the default receive timeout.
    fn default() -> (r: Config)
        ensures
            r.url@ == "tcp://127.0.0.1:10234"@,
            r.recv_timeout_msec == DEFAULT_RECV_TIMEOUT_MSEC,
    {
        Config {
            url: <String as vstd::string::StringExecFns>::from_str("tcp://127.0.0.1:10234"),
            recv_timeout_msec: DEFAULT_RECV_TIMEOUT_MSEC,
        }
    }
}

/// How long the transport's receive step may wait for this command:
/// indefinitely for the destructive administrative commands, the caller's
/// choice for synchronize, the configured timeout otherwise.
pub open spec fn receive_timeout_spec(
    c: CommandView,
    recv_timeout_msec: u64,
    sync_timeout_msec: Option<u64>,
) -> Option<u64> {
    match c {
        CommandView::Reset => None,
        CommandView::RecomputeZero => None,
        CommandView::Synchronize => sync_timeout_msec,
        _ => Some(recv_timeout_msec),
    }
}

/// One fully prepared call: the encoded envelope and the receive timeout
/// the transport must apply, `None` meaning wait indefinitely.
pub struct WireRequest {
    pub payload: Vec<u8>,
    pub recv_timeout_msec: Option<u64>,
}

/// Builds the call plan for one command. Fails exactly when the command
/// cannot be encoded; nothing reaches any transport then.
pub fn prepare(cmd: &Command, cfg: &Config, sync_timeout_msec: Option<u64>) -> (r: Result<
    WireRequest,
    EncodeError,
>)
    ensures
        r is Ok <==> cmd_wf(cmd@),
        (r matches Ok(w) ==> w.payload@ == enc_command(cmd@)),
        (r matches Ok(w) ==> w.recv_timeout_msec == receive_timeout_spec(
            cmd@,
            cfg.recv_timeout_msec,
            sync_timeout_msec,
        )),
        (r matches Err(e) ==> (e == EncodeError::EmptyContextName <==> !cmd_context_wf(cmd@))),
        (r matches Err(e) ==> (e == EncodeError::Oversized <==> cmd_context_wf(cmd@))),
{
    let payload = match cmd.encode() {
        Ok(p) => p,
        Err(e) => {
            return Err(e);
        },
    };
    let t: Option<u64> = match cmd {
        Command::Reset => None,
        Command::RecomputeZero => None,
        Command::Synchronize => sync_timeout_msec,
        _ => Some(cfg.recv_timeout_msec),
    };
    Ok(WireRequest { payload: payload, recv_timeout_msec: t })
}

} // verus!
