use n2c_source::config::{AddressArg, BearerKind, Config, CHAINSYNC_CHANNEL, HANDSHAKE_CHANNEL};
use n2c_source::handshake::{
    effective_magic, handshake_outcome, HandshakeError, HandshakeReply, RefuseReason,
    VersionTable, MAINNET_MAGIC,
};
use n2c_source::intersect::{decode_hash, resolve_intersection, ConfigError, IntersectArg, PointArg};
use n2c_source::retry::{backoff_delay, ConnectStep, Reconnect, RetryPolicy};
use n2c_source::rollback::{Point, Position};

fn parg(slot: u64, hash: &str) -> PointArg {
    PointArg { slot, hash: hash.to_string() }
}

fn base_config() -> Config {
    Config {
        address: AddressArg(BearerKind::Unix, "/tmp/node.socket".to_string()),
        magic: None,
        since: None,
        intersect: None,
        well_known: None,
        min_depth: 0,
        retry_policy: None,
    }
}

fn policy() -> RetryPolicy {
    RetryPolicy { max_retries: Some(3), backoff_unit_ms: 100, backoff_factor: 2, max_backoff_ms: 60_000 }
}

#[test]
fn two_failures_then_success_waits_twice() {
    let mut r = Reconnect::new(Some(policy()));
    let mut waits = Vec::new();
    for connected in [false, false, true] {
        match r.on_attempt(connected) {
            ConnectStep::Wait(ms) => waits.push(ms),
            ConnectStep::Connected => break,
            ConnectStep::GiveUp => panic!("should not give up"),
        }
    }
    assert_eq!(waits, vec![100, 200]);
    assert_eq!(r.failures(), 2);
}

#[test]
fn retries_run_out() {
    let mut r = Reconnect::new(Some(policy()));
    assert_eq!(r.on_attempt(false), ConnectStep::Wait(100));
    assert_eq!(r.on_attempt(false), ConnectStep::Wait(200));
    assert_eq!(r.on_attempt(false), ConnectStep::Wait(400));
    assert_eq!(r.on_attempt(false), ConnectStep::GiveUp);
}

#[test]
fn zero_retries_gives_up_at_first_failure() {
    let p = RetryPolicy { max_retries: Some(0), ..policy() };
    let mut r = Reconnect::new(Some(p));
    assert_eq!(r.on_attempt(false), ConnectStep::GiveUp);
    assert_eq!(r.failures(), 1);
}

#[test]
fn no_policy_means_single_attempt() {
    let mut r = Reconnect::new(None);
    assert_eq!(r.on_attempt(false), ConnectStep::GiveUp);
    let mut r = Reconnect::new(None);
    assert_eq!(r.on_attempt(true), ConnectStep::Connected);
}

#[test]
fn unbounded_retries_keep_waiting_with_cap() {
    let p = RetryPolicy { max_retries: None, backoff_unit_ms: 1000, backoff_factor: 2, max_backoff_ms: 5000 };
    let mut r = Reconnect::new(Some(p));
    let waits: Vec<ConnectStep> = (0..6).map(|_| r.on_attempt(false)).collect();
    assert_eq!(
        waits,
        vec![
            ConnectStep::Wait(1000),
            ConnectStep::Wait(2000),
            ConnectStep::Wait(4000),
            ConnectStep::Wait(5000),
            ConnectStep::Wait(5000),
            ConnectStep::Wait(5000)
        ]
    );
}

#[test]
fn backoff_formula_values() {
    let p = RetryPolicy { max_retries: None, backoff_unit_ms: 100, backoff_factor: 3, max_backoff_ms: 10_000 };
    assert_eq!(backoff_delay(&p, 0), 100);
    assert_eq!(backoff_delay(&p, 2), 900);
    assert_eq!(backoff_delay(&p, 4), 8100);
    assert_eq!(backoff_delay(&p, 5), 10_000);
    assert_eq!(backoff_delay(&p, 4_000_000_000), 10_000);
    let z = RetryPolicy { backoff_factor: 0, ..p };
    assert_eq!(backoff_delay(&z, 0), 100);
    assert_eq!(backoff_delay(&z, 1), 0);
    let big = RetryPolicy { max_retries: None, backoff_unit_ms: u64::MAX, backoff_factor: u32::MAX, max_backoff_ms: u64::MAX };
    assert_eq!(backoff_delay(&big, 3), u64::MAX);
}

#[test]
fn handshake_version_mismatch_fails() {
    let reply = HandshakeReply::Refuse(RefuseReason::VersionMismatch(vec![99, 100]));
    assert_eq!(handshake_outcome(reply), Err(HandshakeError::VersionMismatch));
}

#[test]
fn handshake_refusals_fail() {
    let reply = HandshakeReply::Refuse(RefuseReason::Refused(32780, "no".to_string()));
    assert_eq!(handshake_outcome(reply), Err(HandshakeError::Refused));
    let reply = HandshakeReply::Refuse(RefuseReason::HandshakeDecodeError(1, "bad".to_string()));
    assert_eq!(handshake_outcome(reply), Err(HandshakeError::Refused));
}

#[test]
fn handshake_accept_gives_version_and_magic() {
    assert_eq!(handshake_outcome(HandshakeReply::Accept(32779, 42)), Ok((32779, 42)));
    assert_eq!(handshake_outcome(HandshakeReply::Accept(7, 43)), Ok((7, 43)));
}

#[test]
fn client_versions_are_v1_and_above() {
    let table = VersionTable::client_versions(42);
    let mut v = table.versions();
    v.sort();
    let mut expected = vec![1u64];
    expected.extend(32770..=32780u64);
    assert_eq!(v, expected);
    assert_eq!(table.lookup(32770), Some(42));
    assert_eq!(table.lookup(2), None);
}

#[test]
fn default_magic_is_mainnet() {
    assert_eq!(effective_magic(None), 764824073);
    assert_eq!(effective_magic(Some(2)), 2);
}

#[test]
fn decode_hash_values() {
    assert_eq!(decode_hash("00ff1A"), Some(vec![0, 255, 26]));
    assert_eq!(decode_hash(""), Some(vec![]));
    assert_eq!(decode_hash("abc"), None);
    assert_eq!(decode_hash("zz"), None);
}

fn views(points: &[Point]) -> Vec<(Position, Vec<u8>)> {
    points
        .iter()
        .map(|p| match p {
            Point::Origin => (Position::Origin, vec![]),
            Point::Specific(s, h) => (Position::Slot(*s), h.clone()),
        })
        .collect()
}

#[test]
fn intersect_takes_precedence_over_since() {
    let i = Some(IntersectArg::Fallbacks(vec![parg(10, "aa"), parg(5, "bb")]));
    let s = Some(parg(1, "cc"));
    let r = resolve_intersection(&i, &s).unwrap();
    assert_eq!(views(&r), vec![(Position::Slot(10), vec![0xaa]), (Position::Slot(5), vec![0xbb])]);
}

#[test]
fn since_used_when_intersect_empty() {
    let s = Some(parg(1, "cc"));
    let r = resolve_intersection(&Some(IntersectArg::Tip), &s).unwrap();
    assert_eq!(views(&r), vec![(Position::Slot(1), vec![0xcc])]);
    let r = resolve_intersection(&None, &s).unwrap();
    assert_eq!(views(&r), vec![(Position::Slot(1), vec![0xcc])]);
    let r = resolve_intersection(&None, &None).unwrap();
    assert!(r.is_empty());
    let r = resolve_intersection(&Some(IntersectArg::Origin), &s).unwrap();
    assert_eq!(views(&r), vec![(Position::Origin, vec![])]);
}

#[test]
fn malformed_point_is_config_error() {
    let i = Some(IntersectArg::Point(parg(3, "xyz")));
    assert_eq!(resolve_intersection(&i, &None).unwrap_err(), ConfigError::MalformedPoint);
    assert_eq!(resolve_intersection(&None, &Some(parg(3, "0"))).unwrap_err(), ConfigError::MalformedPoint);
}

#[test]
fn resolution_is_repeatable() {
    let i = Some(IntersectArg::Fallbacks(vec![parg(10, "aa"), parg(5, "bb")]));
    let a = resolve_intersection(&i, &None).unwrap();
    let b = resolve_intersection(&i, &None).unwrap();
    assert_eq!(views(&a), views(&b));
}

#[test]
fn plan_normalises_config() {
    let mut c = base_config();
    c.min_depth = 6;
    c.since = Some(parg(9, "0a0b"));
    c.retry_policy = Some(policy());
    let p = c.plan().unwrap();
    assert_eq!(p.magic, MAINNET_MAGIC);
    assert_eq!(p.channels, vec![HANDSHAKE_CHANNEL, CHAINSYNC_CHANNEL]);
    assert_eq!(p.min_depth, 6);
    assert_eq!(p.retry_policy, Some(policy()));
    assert_eq!(views(&p.start), vec![(Position::Slot(9), vec![10, 11])]);
    assert_eq!(p.versions.lookup(1), Some(MAINNET_MAGIC));
    c.since = Some(parg(9, "0"));
    assert_eq!(c.plan().err(), Some(ConfigError::MalformedPoint));
}
