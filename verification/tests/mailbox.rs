use std::collections::BTreeMap;

use seqr::clock::{now_millis, now_secs};
use seqr::crypto::keys::Identity;
use seqr::crypto::sign::sign;
use seqr::desktop::mailbox::{base_url, endpoint, push_request, signed_ack_request, signed_pull_request};
use seqr::hexcode::hex_encode;
use seqr::mailbox::store::{
    is_hex, message_file_name, message_id, pulled_message, random_suffix, select_for_pull, valid_id, Store,
};
use seqr::mailbox::{fresh, fresh_at, verify_identity, AppState, Config, Rejection};
use seqr::protocol::mailbox::{AckRequest, PullRequest, PushRequest};

fn test_state() -> AppState {
    let config = Config {
        bind: "0.0.0.0:0".to_string(),
        data_dir: "/tmp/seqr-mailbox-test".to_string(),
        max_payload: 131072,
        clock_skew_secs: 120,
        pull_limit: 256,
    };
    let store = Store::new(config.data_dir.clone());
    AppState { store, config }
}

#[test]
fn hex_validation() {
    assert!(is_hex(&"a".repeat(64), 64));
    assert!(!is_hex("../etc", 64));
    assert!(!is_hex("ABCDEF", 6));
}

/// A mailbox directory held in memory: file name to payload.
fn pull_from(dir: &BTreeMap<String, String>, limit: usize) -> Vec<(String, String)> {
    let names: Vec<String> = dir.keys().rev().cloned().collect();
    select_for_pull(names, limit)
        .into_iter()
        .map(|name| {
            let payload = dir[&name].clone();
            let m = pulled_message(&name, payload);
            (m.id, m.payload)
        })
        .collect()
}

#[test]
fn push_pull_ack_cycle() {
    let store = Store::new("/tmp/seqr-store-test".to_string());
    let id = "a".repeat(64);
    let mut dir: BTreeMap<String, String> = BTreeMap::new();

    let m1 = message_id(1_700_000_000_123, 0, &random_suffix().unwrap());
    dir.insert(message_file_name(&m1), "ciphertext-1".to_string());
    let m2 = message_id(1_700_000_000_123, 1, &random_suffix().unwrap());
    dir.insert(message_file_name(&m2), "ciphertext-2".to_string());

    let pulled = pull_from(&dir, 10);
    assert_eq!(pulled.len(), 2);
    assert_eq!(pulled[0].1, "ciphertext-1"); // oldest first

    let paths = store.ack_paths(&id, &[m1.clone()]);
    assert_eq!(paths, vec![store.message_path(&id, &m1)]);
    dir.remove(&message_file_name(&m1));
    let remaining = pull_from(&dir, 10);
    assert_eq!(remaining.len(), 1);
    assert_eq!(remaining[0].1, "ciphertext-2");
}

#[test]
fn pull_empty_mailbox() {
    assert!(select_for_pull(Vec::new(), 10).is_empty());
}

#[test]
fn message_ids_have_the_id_format() {
    let id = message_id(42, 7, "0123456789abcdef");
    assert_eq!(id, "0000000000042-0000000007-0123456789abcdef");
    assert!(valid_id(&id));
    assert!(!valid_id("0000000000042-0000000007-0123456789ABCDEF"));
    assert!(!valid_id("../../etc/passwd"));
    assert_eq!(message_file_name(&id), "0000000000042-0000000007-0123456789abcdef.msg");
}

#[test]
fn random_suffix_is_sixteen_hex_digits() {
    let s = random_suffix().unwrap();
    assert!(is_hex(&s, 16));
}

#[test]
fn pull_selection_filters_sorts_and_limits() {
    let names = vec![
        "0000000000003-0000000000-aaaaaaaaaaaaaaaa.msg".to_string(),
        "notes.txt".to_string(),
        "0000000000001-0000000000-bbbbbbbbbbbbbbbb.msg".to_string(),
        "0000000000002-0000000000-cccccccccccccccc.msg".to_string(),
    ];
    let sel = select_for_pull(names, 2);
    assert_eq!(
        sel,
        vec![
            "0000000000001-0000000000-bbbbbbbbbbbbbbbb.msg".to_string(),
            "0000000000002-0000000000-cccccccccccccccc.msg".to_string(),
        ]
    );
}

#[test]
fn pulled_message_strips_extension() {
    let m = pulled_message("abc.msg.msg", "p".to_string());
    assert_eq!(m.id, "abc");
    assert_eq!(m.payload, "p");
}

#[test]
fn store_paths() {
    let store = Store::new("/srv/data".to_string());
    assert_eq!(store.root(), "/srv/data");
    assert_eq!(store.mailbox_dir("ab"), "/srv/data/ab");
    assert_eq!(store.message_path("ab", "x"), "/srv/data/ab/x.msg");
    let ids = vec!["bad".to_string(), "0000000000001-0000000000-bbbbbbbbbbbbbbbb".to_string()];
    assert_eq!(
        store.ack_paths("ab", &ids),
        vec!["/srv/data/ab/0000000000001-0000000000-bbbbbbbbbbbbbbbb.msg".to_string()]
    );
}

#[test]
fn config_defaults_and_overrides() {
    let c = Config::from_values(None, None, None, None, None);
    assert_eq!(c.bind, "0.0.0.0:8787");
    assert_eq!(c.data_dir, "./data");
    assert_eq!(c.max_payload, 2097152);
    assert_eq!(c.clock_skew_secs, 120);
    assert_eq!(c.pull_limit, 16);
    let c = Config::from_values(
        Some("127.0.0.1:1".to_string()),
        Some("/var/lib/seqr".to_string()),
        Some("100".to_string()),
        Some("not a number".to_string()),
        Some("+8".to_string()),
    );
    assert_eq!(c.bind, "127.0.0.1:1");
    assert_eq!(c.data_dir, "/var/lib/seqr");
    assert_eq!(c.max_payload, 100);
    assert_eq!(c.clock_skew_secs, 120);
    assert_eq!(c.pull_limit, 8);
}

#[test]
fn freshness_window() {
    assert!(fresh_at(1_000_000_000, 120, 1_000_000));
    assert!(fresh_at(1_120_999, 120, 1_000));
    assert!(!fresh_at(1_121_000, 120, 1_000));
    assert!(fresh_at(0, 120, 100));
    assert!(!fresh_at(0, 120, 121));
    assert!(fresh(now_millis(), 120));
    assert!(fresh_at(u64::MAX, u64::MAX, 5));
}

#[test]
fn verify_identity_checks_shape_and_signature() {
    let id = Identity::generate().unwrap();
    let hex_id = hex_encode(&id.public().signing_public);
    let sig = hex_encode(&sign(&id.signing_key, b"m"));
    assert!(verify_identity(&hex_id, b"m", &sig));
    assert!(!verify_identity(&hex_id, b"n", &sig));
    assert!(!verify_identity(&hex_id.to_uppercase(), b"m", &sig));
    assert!(!verify_identity(&hex_id, b"m", &sig[..126]));
}

#[test]
fn full_lifecycle() {
    let state = test_state();
    let recipient = Identity::generate().unwrap();
    let rid = hex_encode(&recipient.public().signing_public);

    assert_eq!(state.check_push(&PushRequest { to: rid.clone(), payload: "ciphertext-A".into() }), Ok(()));
    assert_eq!(state.check_push(&PushRequest { to: rid.clone(), payload: "ciphertext-B".into() }), Ok(()));

    let ts = now_millis();
    let sig = hex_encode(&sign(&recipient.signing_key, &PullRequest::signing_bytes(&rid, ts)));
    let pull = PullRequest { identity: rid.clone(), ts, signature: sig };
    assert_eq!(state.authorize_pull(&pull, now_secs()), Ok(()));

    let ts2 = now_millis();
    let ids = vec![message_id(ts2, 0, &random_suffix().unwrap())];
    let asig = hex_encode(&sign(&recipient.signing_key, &AckRequest::signing_bytes(&rid, ts2, &ids)));
    let ack = AckRequest { identity: rid.clone(), ts: ts2, signature: asig, ids };
    assert_eq!(state.authorize_ack(&ack, now_secs()), Ok(()));
}

#[test]
fn push_refusals() {
    let state = test_state();
    let rid = "b".repeat(64);
    let r = state.check_push(&PushRequest { to: "zz".into(), payload: "x".into() });
    assert_eq!(r, Err(Rejection::BadRequest));
    assert_eq!(r.unwrap_err().status(), 400);
    let r = state.check_push(&PushRequest { to: rid.clone(), payload: String::new() });
    assert_eq!(r, Err(Rejection::PayloadTooLarge));
    assert_eq!(r.unwrap_err().status(), 413);
    let r = state.check_push(&PushRequest { to: rid, payload: "x".repeat(131073) });
    assert_eq!(r, Err(Rejection::PayloadTooLarge));
}

#[test]
fn pull_rejects_forged_signature() {
    let state = test_state();
    let victim = Identity::generate().unwrap();
    let attacker = Identity::generate().unwrap();
    let vid = hex_encode(&victim.public().signing_public);
    let ts = now_millis();
    let sig = hex_encode(&sign(&attacker.signing_key, &PullRequest::signing_bytes(&vid, ts)));
    let r = state.authorize_pull(&PullRequest { identity: vid, ts, signature: sig }, now_secs());
    assert_eq!(r, Err(Rejection::Unauthorized));
    assert_eq!(r.unwrap_err().status(), 401);
}

#[test]
fn pull_rejects_stale_timestamp() {
    let state = test_state();
    let id = Identity::generate().unwrap();
    let hid = hex_encode(&id.public().signing_public);
    let ts = now_millis() - 10_000_000;
    let sig = hex_encode(&sign(&id.signing_key, &PullRequest::signing_bytes(&hid, ts)));
    let r = state.authorize_pull(&PullRequest { identity: hid, ts, signature: sig }, now_secs());
    assert_eq!(r, Err(Rejection::Unauthorized));
}

#[test]
fn client_requests_are_admitted_when_fresh() {
    let state = test_state();
    let me = Identity::generate().unwrap();
    let ts = now_millis();
    let pull = signed_pull_request(&me, ts);
    assert_eq!(pull.identity, hex_encode(&me.public().signing_public));
    assert_eq!(state.authorize_pull(&pull, ts / 1000), Ok(()));
    assert_eq!(state.authorize_pull(&pull, ts / 1000 + 121), Err(Rejection::Unauthorized));
    let ack = signed_ack_request(&me, ts, vec!["x".to_string(), "y".to_string()]);
    assert_eq!(state.authorize_ack(&ack, ts / 1000), Ok(()));
    let mut tampered = ack.clone();
    tampered.ids.push("z".to_string());
    assert_eq!(state.authorize_ack(&tampered, ts / 1000), Err(Rejection::Unauthorized));
}

#[test]
fn signing_strings() {
    assert_eq!(PullRequest::signing_bytes("ab", 12), b"seqr/pull/v1|ab|12".to_vec());
    let ids = vec!["x".to_string(), "y".to_string()];
    assert_eq!(AckRequest::signing_bytes("ab", 5, &ids), b"seqr/ack/v1|ab|5|x,y".to_vec());
}

#[test]
fn client_urls() {
    assert_eq!(base_url("https://host:8443//"), "https://host:8443");
    assert_eq!(endpoint("https://host", "/v1/push"), "https://host/v1/push");
    let p = push_request("to", "payload");
    assert_eq!(p.to, "to");
    assert_eq!(p.payload, "payload");
}

#[test]
fn ack_signing_bytes_tell_id_lists_apart() {
    let ab_c = vec!["ab".to_string(), "c".to_string()];
    let a_bc = vec!["a".to_string(), "bc".to_string()];
    let abc = vec!["abc".to_string()];
    let a = AckRequest::signing_bytes("id", 5, &ab_c);
    assert_ne!(a, AckRequest::signing_bytes("id", 5, &a_bc));
    assert_ne!(a, AckRequest::signing_bytes("id", 5, &abc));
    assert_eq!(a, AckRequest::signing_bytes("id", 5, &ab_c.clone()));
    assert_eq!(a, b"seqr/ack/v1|id|5|ab,c".to_vec());
}

#[test]
fn lifecycle_through_the_store() {
    let state = test_state();
    let recipient = Identity::generate().unwrap();
    let rid = hex_encode(&recipient.public().signing_public);
    let mut dir: BTreeMap<String, String> = BTreeMap::new();
    let mut ids = Vec::new();
    for (seq, payload) in ["ciphertext-A", "ciphertext-B"].iter().enumerate() {
        let push = PushRequest { to: rid.clone(), payload: payload.to_string() };
        assert_eq!(state.check_push(&push), Ok(()));
        let id = message_id(1_700_000_000_000, seq as u64, &random_suffix().unwrap());
        dir.insert(message_file_name(&id), push.payload);
        ids.push(id);
    }
    let pulled = pull_from(&dir, state.config.pull_limit);
    assert_eq!(pulled.len(), 2);
    assert_eq!(pulled[0], (ids[0].clone(), "ciphertext-A".to_string()));
    assert_eq!(pulled[1], (ids[1].clone(), "ciphertext-B".to_string()));
    let ts = now_millis();
    let acked: Vec<String> = pulled.iter().map(|(id, _)| id.clone()).collect();
    let sig = hex_encode(&sign(&recipient.signing_key, &AckRequest::signing_bytes(&rid, ts, &acked)));
    let ack = AckRequest { identity: rid.clone(), ts, signature: sig, ids: acked.clone() };
    assert_eq!(state.authorize_ack(&ack, now_secs()), Ok(()));
    let paths = state.store.ack_paths(&rid, &acked);
    assert_eq!(paths.len(), 2);
    for id in &acked {
        dir.remove(&message_file_name(id));
    }
    assert!(pull_from(&dir, state.config.pull_limit).is_empty());
}

#[test]
fn pull_ack_and_frame_bytes_never_coincide() {
    let pull = PullRequest::signing_bytes("ab", 1_700_000_000_000);
    assert_eq!(pull, b"seqr/pull/v1|ab|1700000000000".to_vec());
    assert_ne!(pull, AckRequest::signing_bytes("ab", 1_700_000_000_000, &[]));
}
