//! The mailbox service: its configuration, its message store, and the rules by which
//! it admits requests. Push is open but bounded; pull and ack are admitted only with a
//! fresh timestamp and a signature by the mailbox owner's key over the request's
//! canonical bytes. The HTTP plumbing and the filesystem work stand outside the
//! library and follow the decisions made here.

pub mod store;

use vstd::prelude::*;

use crate::clock::now_secs;
use crate::crypto::sign::{verify_raw, verify_raw_spec};
use crate::hexcode::{hex_decode_32, hex_decode_64, hex_decode_spec, hex_value, parse_u64, parse_unsigned_spec};
use crate::protocol::mailbox::{ack_signing_spec, pull_signing_spec, AckRequest, PullRequest, PushRequest};
use crate::text::{strings_bytes, utf8_bytes};
use store::{is_hex, is_hex_spec, is_lower_hex_digit, Store};

verus! {

/// Runtime settings of the mailbox service.
pub struct Config {
    /// Address the HTTP listener binds.
    pub bind: String,
    /// Root directory of the message store.
    pub data_dir: String,
    /// Reject payloads larger than this (bytes of the hex string).
    pub max_payload: usize,
    /// Accept pull/ack requests whose timestamp is within this many seconds of now.
    pub clock_skew_secs: u64,
    /// Maximum messages returned in one pull.
    pub pull_limit: usize,
}

/// A setting's text: the given value, or the default when none is set.
pub open spec fn setting_or(value: Option<String>, default: Seq<char>) -> Seq<char> {
    match value {
        Some(v) => v@,
        None => default,
    }
}

/// A numeric setting: the given value when it parses as an unsigned number of at most
/// `max`, else the default.
pub open spec fn number_or(value: Option<String>, default: nat, max: nat) -> nat {
    match value {
        Some(v) => match parse_unsigned_spec(utf8_bytes(v@)) {
            Some(n) => if n <= max {
                n
            } else {
                default
            },
            None => default,
        },
        None => default,
    }
}

/// `s.parse::<usize>()`.
fn parse_usize(s: &str) -> (r: Option<usize>)
    ensures
        match parse_unsigned_spec(utf8_bytes(s@)) {
            Some(n) => if n <= usize::MAX {
                r == Some(n as usize)
            } else {
                r is None
            },
            None => r is None,
        },
{
    match parse_u64(s) {
        Some(n) => {
            if (n as u128) <= (usize::MAX as u128) {
                Some(n as usize)
            } else {
                None
            }
        },
        None => None,
    }
}

impl Config {
    /// The configuration from the values of its settings (`None` where one is unset):
    /// `SEQR_MAILBOX_BIND` (default `0.0.0.0:8787`), `SEQR_MAILBOX_DATA` (`./data`),
    /// `SEQR_MAILBOX_MAX_PAYLOAD` (2 MiB, one hex-encoded attachment chunk with room to
    /// spare), `SEQR_MAILBOX_SKEW_SECS` (120) and `SEQR_MAILBOX_PULL_LIMIT` (16). A
    /// number that does not parse falls back to its default.
    pub fn from_values(
        bind: Option<String>,
        data_dir: Option<String>,
        max_payload: Option<String>,
        clock_skew_secs: Option<String>,
        pull_limit: Option<String>,
    ) -> (c: Config)
        ensures
            c.bind@ == setting_or(bind, "0.0.0.0:8787"@),
            c.data_dir@ == setting_or(data_dir, "./data"@),
            c.max_payload == number_or(max_payload, 2097152, usize::MAX as nat),
            c.clock_skew_secs == number_or(clock_skew_secs, 120, u64::MAX as nat),
            c.pull_limit == number_or(pull_limit, 16, usize::MAX as nat),
    {
        let bind = match bind {
            Some(v) => v,
            None => String::from_str("0.0.0.0:8787"),
        };
        let data_dir = match data_dir {
            Some(v) => v,
            None => String::from_str("./data"),
        };
        let max_payload = match max_payload {
            Some(v) => match parse_usize(v.as_str()) {
                Some(n) => n,
                None => 2097152,
            },
            None => 2097152,
        };
        let clock_skew_secs = match clock_skew_secs {
            Some(v) => match parse_u64(v.as_str()) {
                Some(n) => n,
                None => 120,
            },
            None => 120,
        };
        let pull_limit = match pull_limit {
            Some(v) => match parse_usize(v.as_str()) {
                Some(n) => n,
                None => 16,
            },
            None => 16,
        };
        Config { bind, data_dir, max_payload, clock_skew_secs, pull_limit }
    }
}

/// The service's shared state.
pub struct AppState {
    pub store: Store,
    pub config: Config,
}

/// Whether a request stamped `ts_millis` lies within `skew_secs` of the server clock
/// reading `now_secs`: its whole seconds fall in `[now - skew, now + skew]`, the bounds
/// held at 0 and `u64::MAX`.
pub open spec fn fresh_spec(ts_millis: u64, skew_secs: u64, now_secs: u64) -> bool {
    let ts = ts_millis / 1000;
    let lo: int = if now_secs >= skew_secs {
        now_secs - skew_secs
    } else {
        0
    };
    let hi: int = if now_secs + skew_secs <= u64::MAX {
        now_secs + skew_secs
    } else {
        u64::MAX as int
    };
    lo <= ts <= hi
}

/// The replay guard at a given clock reading.
pub fn fresh_at(ts_millis: u64, skew_secs: u64, now_secs: u64) -> (r: bool)
    ensures
        r == fresh_spec(ts_millis, skew_secs, now_secs),
{
    let ts_secs = ts_millis / 1000;
    let lo = now_secs.saturating_sub(skew_secs);
    let hi = now_secs.saturating_add(skew_secs);
    ts_secs >= lo && ts_secs <= hi
}

/// Reject requests whose timestamp drifts too far from the server clock (replay
/// guard). The answer is the window check at whatever the clock read.
pub fn fresh(ts_millis: u64, skew_secs: u64) -> (r: bool)
    ensures
        exists|now: u64| r == #[trigger] fresh_spec(ts_millis, skew_secs, now),
{
    let now = now_secs();
    fresh_at(ts_millis, skew_secs, now)
}

/// Whether `signature` (hex) is a valid Ed25519 signature of `msg` by the key
/// `identity` (hex): both must be lowercase hex of the right length (64 and 128
/// digits), the key must decompress, and the signature must verify.
pub open spec fn identity_verifies(identity: Seq<u8>, msg: Seq<u8>, signature: Seq<u8>) -> bool {
    &&& is_hex_spec(identity, 64)
    &&& is_hex_spec(signature, 128)
    &&& verify_raw_spec(hex_decode_spec(identity)->0, msg, hex_decode_spec(signature)->0) is Ok
}

/// Lowercase hex text of even length decodes, to half as many bytes.
proof fn lemma_lower_hex_decodes(t: Seq<u8>, len: nat)
    requires
        is_hex_spec(t, len),
        len % 2 == 0,
    ensures
        hex_decode_spec(t) is Some,
        hex_decode_spec(t)->0.len() == len / 2,
{
    assert forall|i: int| 0 <= i < t.len() implies #[trigger] hex_value(t[i]) is Some by {
        assert(is_lower_hex_digit(t[i]));
    }
}

/// Verify an Ed25519 signature over `msg` by the key `identity_hex`.
pub fn verify_identity(identity_hex: &str, msg: &[u8], signature_hex: &str) -> (r: bool)
    ensures
        r == identity_verifies(utf8_bytes(identity_hex@), msg@, utf8_bytes(signature_hex@)),
{
    if !is_hex(identity_hex, 64) || !is_hex(signature_hex, 128) {
        return false;
    }
    proof {
        lemma_lower_hex_decodes(utf8_bytes(identity_hex@), 64);
        lemma_lower_hex_decodes(utf8_bytes(signature_hex@), 128);
    }
    let id = match hex_decode_32(identity_hex) {
        Some(a) => a,
        None => return false,
    };
    let sig = match hex_decode_64(signature_hex) {
        Some(a) => a,
        None => return false,
    };
    verify_raw(&id, msg, &sig).is_ok()
}

/// Why the service refuses a request.
#[derive(Debug, Clone, Copy, PartialEq, Eq, Structural)]
pub enum Rejection {
    /// The recipient is not an identity (400).
    BadRequest,
    /// The payload is empty or over the size limit (413).
    PayloadTooLarge,
    /// A stale timestamp or a signature that does not verify (401).
    Unauthorized,
}

impl Rejection {
    /// The HTTP status code of the refusal.
    pub fn status(&self) -> (code: u16)
        ensures
            code == match *self {
                Rejection::BadRequest => 400u16,
                Rejection::PayloadTooLarge => 413u16,
                Rejection::Unauthorized => 401u16,
            },
    {
        match self {
            Rejection::BadRequest => 400,
            Rejection::PayloadTooLarge => 413,
            Rejection::Unauthorized => 401,
        }
    }
}

/// Whether a push is admitted: the recipient must be an identity (64 lowercase hex
/// digits) and the payload non-empty and within the size limit.
pub open spec fn push_decision(to: Seq<u8>, payload_len: nat, max_payload: nat) -> Result<(), Rejection> {
    if !is_hex_spec(to, 64) {
        Err(Rejection::BadRequest)
    } else if payload_len == 0 || payload_len > max_payload {
        Err(Rejection::PayloadTooLarge)
    } else {
        Ok(())
    }
}

/// Whether a pull or ack is admitted: a fresh timestamp, then the owner's signature
/// over the request's signing bytes.
pub open spec fn signed_decision(
    identity: Seq<u8>,
    ts: u64,
    signed: Seq<u8>,
    signature: Seq<u8>,
    skew_secs: u64,
    now_secs: u64,
) -> Result<(), Rejection> {
    if !fresh_spec(ts, skew_secs, now_secs) {
        Err(Rejection::Unauthorized)
    } else if !identity_verifies(identity, signed, signature) {
        Err(Rejection::Unauthorized)
    } else {
        Ok(())
    }
}

/// The admission decision for a pull request.
pub open spec fn pull_decision(req: PullRequest, skew_secs: u64, now_secs: u64) -> Result<(), Rejection> {
    let identity = utf8_bytes(req.identity@);
    signed_decision(
        identity,
        req.ts,
        pull_signing_spec(identity, req.ts),
        utf8_bytes(req.signature@),
        skew_secs,
        now_secs,
    )
}

/// The admission decision for an ack request.
pub open spec fn ack_decision(req: AckRequest, skew_secs: u64, now_secs: u64) -> Result<(), Rejection> {
    let identity = utf8_bytes(req.identity@);
    signed_decision(
        identity,
        req.ts,
        ack_signing_spec(identity, req.ts, strings_bytes(req.ids@)),
        utf8_bytes(req.signature@),
        skew_secs,
        now_secs,
    )
}

impl AppState {
    /// Admit or refuse a push under the configured size limit.
    pub fn check_push(&self, req: &PushRequest) -> (r: Result<(), Rejection>)
        ensures
            r == push_decision(
                utf8_bytes(req.to@),
                utf8_bytes(req.payload@).len(),
                self.config.max_payload as nat,
            ),
    {
        if !is_hex(req.to.as_str(), 64) {
            return Err(Rejection::BadRequest);
        }
        let len = req.payload.as_str().as_bytes().len();
        if len == 0 || len > self.config.max_payload {
            return Err(Rejection::PayloadTooLarge);
        }
        Ok(())
    }

    /// Admit or refuse a pull at the clock reading `now_secs`.
    pub fn authorize_pull(&self, req: &PullRequest, now_secs: u64) -> (r: Result<(), Rejection>)
        ensures
            r == pull_decision(*req, self.config.clock_skew_secs, now_secs),
    {
        if !fresh_at(req.ts, self.config.clock_skew_secs, now_secs) {
            return Err(Rejection::Unauthorized);
        }
        let msg = PullRequest::signing_bytes(req.identity.as_str(), req.ts);
        if !verify_identity(req.identity.as_str(), msg.as_slice(), req.signature.as_str()) {
            return Err(Rejection::Unauthorized);
        }
        Ok(())
    }

    /// Admit or refuse an ack at the clock reading `now_secs`.
    pub fn authorize_ack(&self, req: &AckRequest, now_secs: u64) -> (r: Result<(), Rejection>)
        ensures
            r == ack_decision(*req, self.config.clock_skew_secs, now_secs),
    {
        if !fresh_at(req.ts, self.config.clock_skew_secs, now_secs) {
            return Err(Rejection::Unauthorized);
        }
        let msg = AckRequest::signing_bytes(req.identity.as_str(), req.ts, req.ids.as_slice());
        if !verify_identity(req.identity.as_str(), msg.as_slice(), req.signature.as_str()) {
            return Err(Rejection::Unauthorized);
        }
        Ok(())
    }
}

} // verus!
