//! The Matrix backend's plain data and decisions: the status the user interface polls,
//! joined rooms, messages and reactions, verification emojis, where the backend keeps
//! its stores and session, the store passphrase, and which raw timeline events become
//! chat history. The Matrix client itself lives outside the library; it hands over the
//! plain values read here.

use vstd::prelude::*;

use crate::crypto::primitives::getrandom_32;
use crate::hexcode::{hex_encode, hex_encode_spec};
use crate::text::{path_join, path_join_spec, str_eq, utf8_bytes};

verus! {

/// Snapshot of the Matrix backend for the user interface.
#[derive(Debug, Clone, PartialEq, Eq)]
pub struct MatrixStatus {
    pub homeserver_url: String,
    pub logged_in: bool,
    pub user_id: Option<String>,
    pub device_id: Option<String>,
}

/// The status for a homeserver, given the live client's user and device ids (`None`
/// when there is no client): logged in exactly when the client has a user id.
pub fn status_of(client: Option<(Option<String>, Option<String>)>, homeserver: &str) -> (s: MatrixStatus)
    ensures
        s.homeserver_url@ == homeserver@,
        match client {
            Some(c) => s.logged_in == c.0 is Some && s.user_id == c.0 && s.device_id == c.1,
            None => !s.logged_in && s.user_id is None && s.device_id is None,
        },
{
    match client {
        Some((user_id, device_id)) => MatrixStatus {
            homeserver_url: String::from_str(homeserver),
            logged_in: user_id.is_some(),
            user_id,
            device_id,
        },
        None => MatrixStatus {
            homeserver_url: String::from_str(homeserver),
            logged_in: false,
            user_id: None,
            device_id: None,
        },
    }
}

/// A joined room, for the conversations list.
#[derive(Debug, Clone, PartialEq, Eq)]
pub struct MatrixRoom {
    pub id: String,
    pub name: String,
    pub is_dm: bool,
}

/// A joined room's entry: its display name, or its id where it has none; direct when the
/// client says so (not direct where it cannot tell).
pub fn room_entry(id: String, name: Option<String>, is_direct: Option<bool>) -> (r: MatrixRoom)
    ensures
        r.id == id,
        r.name == match name {
            Some(n) => n,
            None => id,
        },
        r.is_dm == match is_direct {
            Some(b) => b,
            None => false,
        },
{
    let n = match name {
        Some(n) => n,
        None => id.clone(),
    };
    let d = match is_direct {
        Some(b) => b,
        None => false,
    };
    MatrixRoom { id, name: n, is_dm: d }
}

/// An aggregated reaction on a message.
#[derive(Debug, Clone, PartialEq, Eq)]
pub struct MatrixReaction {
    pub key: String,
    pub count: u64,
    pub mine: bool,
}

/// A decrypted message, flattened for the user interface. For media `body` is the file
/// name or caption.
#[derive(Debug, Clone, PartialEq, Eq)]
pub struct MatrixMessage {
    pub room_id: String,
    pub event_id: Option<String>,
    pub sender: String,
    pub body: String,
    /// `m.text`, `m.image`, `m.file`, ...
    pub msgtype: String,
    /// Milliseconds since the Unix epoch (origin server timestamp).
    pub ts: u64,
    pub outgoing: bool,
    /// Aggregated reactions (from a history fetch; none for live events).
    pub reactions: Vec<MatrixReaction>,
}

/// One emoji of a short authentication string.
#[derive(Debug, Clone, PartialEq, Eq)]
pub struct EmojiDto {
    pub symbol: String,
    pub description: String,
}

/// Everything needed to rebuild the client.
#[derive(Debug, Clone, PartialEq, Eq)]
pub struct ClientSession {
    /// Homeserver base URL the client was built against.
    pub homeserver: String,
    /// Directory backing the stores.
    pub db_path: String,
    /// Passphrase encrypting the stores at rest.
    pub passphrase: String,
}

/// Where the Matrix backend keeps its state, and the homeserver it talks to.
pub struct MatrixState {
    data_dir: String,
    homeserver_url: String,
}

impl MatrixState {
    /// The data directory's bytes.
    pub closed spec fn data_dir_spec(&self) -> Seq<u8> {
        utf8_bytes(self.data_dir@)
    }

    /// The homeserver URL.
    pub closed spec fn homeserver_spec(&self) -> Seq<char> {
        self.homeserver_url@
    }

    pub fn new(data_dir: String, homeserver_url: String) -> (s: MatrixState)
        ensures
            s.data_dir_spec() == utf8_bytes(data_dir@),
            s.homeserver_spec() == homeserver_url@,
    {
        MatrixState { data_dir, homeserver_url }
    }

    pub fn homeserver_url(&self) -> (u: &str)
        ensures
            u@ == self.homeserver_spec(),
    {
        self.homeserver_url.as_str()
    }

    /// Directory holding the stores: `<data_dir>/matrix`.
    pub fn store_dir(&self) -> (p: String)
        ensures
            utf8_bytes(p@) == path_join_spec(self.data_dir_spec(), utf8_bytes("matrix"@)),
    {
        path_join(self.data_dir.as_str(), "matrix")
    }

    /// The session file: `<data_dir>/matrix/session.json`.
    pub fn session_file(&self) -> (p: String)
        ensures
            utf8_bytes(p@) == path_join_spec(
                path_join_spec(self.data_dir_spec(), utf8_bytes("matrix"@)),
                utf8_bytes("session.json"@),
            ),
    {
        let dir = self.store_dir();
        path_join(dir.as_str(), "session.json")
    }
}

/// A fresh passphrase for the stores: the hex of 32 bytes from the system's random
/// source, or `None` when that source fails.
pub fn new_passphrase() -> (p: Option<String>)
    ensures
        p matches Some(s) ==> exists|b: Seq<u8>| b.len() == 32 && utf8_bytes(s@) == hex_encode_spec(b),
{
    match getrandom_32() {
        Some(bytes) => Some(hex_encode(&bytes)),
        None => None,
    }
}

/// The fields of a raw timeline event that the history reads (absent where the event
/// lacks them or they are not of the expected kind).
#[derive(Debug, Clone, PartialEq, Eq)]
pub struct RawEvent {
    pub event_type: Option<String>,
    pub msgtype: Option<String>,
    pub body: Option<String>,
    pub sender: Option<String>,
    pub event_id: Option<String>,
    pub origin_server_ts: Option<u64>,
}

/// Whether a raw event is a text message with a body: type `m.room.message`, msgtype
/// `m.text`.
pub open spec fn is_text_message(e: RawEvent) -> bool {
    &&& e.event_type matches Some(t) && t@ == "m.room.message"@
    &&& e.msgtype matches Some(m) && m@ == "m.text"@
    &&& e.body is Some
}

/// The history entry of a text event in a room, for the user `me`.
pub open spec fn history_entry(m: MatrixMessage, e: RawEvent, room_id: Seq<char>, me: Option<String>) -> bool {
    let sender: Seq<char> = match e.sender {
        Some(s) => s@,
        None => Seq::empty(),
    };
    &&& m.room_id@ == room_id
    &&& m.event_id == e.event_id
    &&& m.sender@ == sender
    &&& m.body == e.body->0
    &&& m.msgtype@ == "m.text"@
    &&& m.ts == match e.origin_server_ts {
        Some(t) => t,
        None => 0,
    }
    &&& m.outgoing == (me matches Some(x) && x@ == sender)
    &&& m.reactions@.len() == 0
}

/// A live message event as the user interface is told of it: its room, id, sender,
/// body, message type and server time, outgoing exactly when its sender is this user,
/// and no reactions yet.
pub fn live_message(
    room_id: &str,
    event_id: &str,
    sender: &str,
    body: &str,
    msgtype: &str,
    ts: u64,
    me: &Option<String>,
) -> (m: MatrixMessage)
    ensures
        m.room_id@ == room_id@,
        m.event_id matches Some(id) && id@ == event_id@,
        m.sender@ == sender@,
        m.body@ == body@,
        m.msgtype@ == msgtype@,
        m.ts == ts,
        m.outgoing == (*me matches Some(x) && x@ == sender@),
        m.reactions@.len() == 0,
{
    let outgoing = match me {
        Some(x) => str_eq(x.as_str(), sender),
        None => false,
    };
    MatrixMessage {
        room_id: String::from_str(room_id),
        event_id: Some(String::from_str(event_id)),
        sender: String::from_str(sender),
        body: String::from_str(body),
        msgtype: String::from_str(msgtype),
        ts,
        outgoing,
        reactions: Vec::new(),
    }
}

/// The room history from a page of raw events fetched newest first: the text messages,
/// oldest first.
pub fn history_from_events(events: Vec<RawEvent>, room_id: &str, me: &Option<String>) -> (out: Vec<MatrixMessage>)
    ensures
        out@.len() == events@.filter(|e: RawEvent| is_text_message(e)).len(),
        forall|i: int|
            0 <= i < out@.len() ==> history_entry(
                #[trigger] out@[i],
                events@.filter(|e: RawEvent| is_text_message(e)).reverse()[i],
                room_id@,
                *me,
            ),
{
    let ghost pred = |e: RawEvent| is_text_message(e);
    let mut fwd: Vec<MatrixMessage> = Vec::new();
    let mut i: usize = 0;
    while i < events.len()
        invariant
            0 <= i <= events@.len(),
            pred == (|e: RawEvent| is_text_message(e)),
            fwd@.len() == events@.take(i as int).filter(pred).len(),
            forall|k: int|
                0 <= k < fwd@.len() ==> history_entry(
                    #[trigger] fwd@[k],
                    events@.take(i as int).filter(pred)[k],
                    room_id@,
                    *me,
                ),
        decreases events@.len() - i,
    {
        proof {
            let t = events@.take(i + 1);
            assert(t.drop_last() =~= events@.take(i as int));
            assert(t.last() == events@[i as int]);
            reveal_with_fuel(Seq::filter, 1);
        }
        let e = &events[i];
        let is_msg = match &e.event_type {
            Some(t) => str_eq(t.as_str(), "m.room.message"),
            None => false,
        };
        let is_text = match &e.msgtype {
            Some(m) => str_eq(m.as_str(), "m.text"),
            None => false,
        };
        if is_msg && is_text {
            match &e.body {
                Some(body) => {
                    let sender = match &e.sender {
                        Some(s) => s.clone(),
                        None => String::new(),
                    };
                    let outgoing = match me {
                        Some(x) => str_eq(x.as_str(), sender.as_str()),
                        None => false,
                    };
                    let ts = match e.origin_server_ts {
                        Some(t) => t,
                        None => 0,
                    };
                    let m = MatrixMessage {
                        room_id: String::from_str(room_id),
                        event_id: e.event_id.clone(),
                        sender,
                        body: body.clone(),
                        msgtype: String::from_str("m.text"),
                        ts,
                        outgoing,
                        reactions: Vec::new(),
                    };
                    proof {
                        reveal_strlit("");
                    }
                    fwd.push(m);
                },
                None => {},
            }
        }
        i = i + 1;
    }
    proof {
        assert(events@.take(events@.len() as int) =~= events@);
    }
    let ghost kept = events@.filter(pred);
    let ghost all = fwd@;
    let mut out: Vec<MatrixMessage> = Vec::new();
    while fwd.len() > 0
        invariant
            all.len() == kept.len(),
            fwd@ == all.take(fwd@.len() as int),
            out@.len() == all.len() - fwd@.len(),
            forall|k: int| 0 <= k < out@.len() ==> #[trigger] out@[k] == all[all.len() - 1 - k],
        decreases fwd@.len(),
    {
        let ghost n = fwd@.len();
        let m = fwd.pop().unwrap();
        proof {
            assert(m == all[n - 1]);
            assert(fwd@ =~= all.take(n - 1));
        }
        out.push(m);
    }
    proof {
        assert forall|i: int| 0 <= i < out@.len() implies history_entry(
            #[trigger] out@[i],
            kept.reverse()[i],
            room_id@,
            *me,
        ) by {
            assert(kept.reverse()[i] == kept[kept.len() - 1 - i]);
        }
    }
    out
}

} // verus!
