//! The call plan: per-command receive timeouts and configuration defaults.

use meritrank_connector::client::{prepare, Config, DEFAULT_SYNC_TIMEOUT_MSEC};
use meritrank_connector::commands::{Command, ReadTarget};

#[test]
fn default_config() {
    let cfg = Config::default();
    assert_eq!(cfg.url, "tcp://127.0.0.1:10234");
    assert_eq!(cfg.recv_timeout_msec, 10000);
}

#[test]
fn ordinary_calls_use_the_configured_timeout() {
    let cfg = Config { url: "tcp://engine:1".to_string(), recv_timeout_msec: 2500 };
    let cmd = Command::NodeScore {
        context: ReadTarget::Aggregate,
        ego: "U1".to_string(),
        target: "U2".to_string(),
    };
    let request = prepare(&cmd, &cfg, None).unwrap();
    assert_eq!(request.recv_timeout_msec, Some(2500));
}

#[test]
fn destructive_admin_calls_wait_indefinitely() {
    let cfg = Config::default();
    assert_eq!(prepare(&Command::Reset, &cfg, None).unwrap().recv_timeout_msec, None);
    assert_eq!(
        prepare(&Command::RecomputeZero, &cfg, None).unwrap().recv_timeout_msec,
        None
    );
}

#[test]
fn synchronize_uses_the_callers_timeout() {
    let cfg = Config::default();
    let request = prepare(&Command::Synchronize, &cfg, Some(DEFAULT_SYNC_TIMEOUT_MSEC)).unwrap();
    assert_eq!(request.recv_timeout_msec, Some(60000));
    let request = prepare(&Command::Synchronize, &cfg, None).unwrap();
    assert_eq!(request.recv_timeout_msec, None);
}

#[test]
fn prepared_payload_is_the_encoding() {
    let cfg = Config::default();
    let cmd = Command::Synchronize;
    let request = prepare(&cmd, &cfg, Some(60000)).unwrap();
    assert_eq!(request.payload, cmd.encode().unwrap());
}
