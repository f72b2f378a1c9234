use seqr::matrix::{history_from_events, live_message, new_passphrase, room_entry, status_of, MatrixState, RawEvent};

#[test]
fn status_reflects_the_client() {
    let s = status_of(None, "https://hs");
    assert_eq!(s.homeserver_url, "https://hs");
    assert!(!s.logged_in);
    let s = status_of(Some((Some("@a:hs".into()), Some("DEV".into()))), "https://hs");
    assert!(s.logged_in);
    assert_eq!(s.user_id.as_deref(), Some("@a:hs"));
    assert_eq!(s.device_id.as_deref(), Some("DEV"));
    let s = status_of(Some((None, None)), "https://hs");
    assert!(!s.logged_in);
}

#[test]
fn rooms_fall_back_to_their_id() {
    let r = room_entry("!r:hs".into(), None, None);
    assert_eq!(r.name, "!r:hs");
    assert!(!r.is_dm);
    let r = room_entry("!r:hs".into(), Some("Chat".into()), Some(true));
    assert_eq!(r.name, "Chat");
    assert!(r.is_dm);
}

fn ev(t: &str, m: &str, body: Option<&str>, sender: &str, ts: u64) -> RawEvent {
    RawEvent {
        event_type: Some(t.into()),
        msgtype: Some(m.into()),
        body: body.map(String::from),
        sender: Some(sender.into()),
        event_id: Some(format!("${ts}")),
        origin_server_ts: Some(ts),
    }
}

#[test]
fn history_keeps_text_messages_oldest_first() {
    let events = vec![
        ev("m.room.message", "m.text", Some("third"), "@me:hs", 3),
        ev("m.reaction", "m.text", Some("x"), "@b:hs", 2),
        ev("m.room.message", "m.image", Some("pic.png"), "@b:hs", 2),
        ev("m.room.message", "m.text", None, "@b:hs", 2),
        ev("m.room.message", "m.text", Some("first"), "@b:hs", 1),
    ];
    let me = Some("@me:hs".to_string());
    let h = history_from_events(events, "!r:hs", &me);
    assert_eq!(h.len(), 2);
    assert_eq!(h[0].body, "first");
    assert!(!h[0].outgoing);
    assert_eq!(h[1].body, "third");
    assert!(h[1].outgoing);
    assert_eq!(h[1].ts, 3);
    assert_eq!(h[1].msgtype, "m.text");
    assert_eq!(h[0].room_id, "!r:hs");
}

#[test]
fn store_locations() {
    let st = MatrixState::new("/data".into(), "https://hs".into());
    assert_eq!(st.homeserver_url(), "https://hs");
    assert_eq!(st.store_dir(), "/data/matrix");
    assert_eq!(st.session_file(), "/data/matrix/session.json");
}

#[test]
fn passphrases_are_fresh_hex() {
    let a = new_passphrase().unwrap();
    let b = new_passphrase().unwrap();
    assert_eq!(a.len(), 64);
    assert!(a.bytes().all(|c| c.is_ascii_hexdigit()));
    assert_ne!(a, b);
}

#[test]
fn live_messages_are_outgoing_only_from_me() {
    let me = Some("@me:x".to_string());
    let m = live_message("!r", "$e", "@me:x", "hi", "m.text", 5, &me);
    assert!(m.outgoing);
    assert_eq!(m.event_id.as_deref(), Some("$e"));
    assert!(m.reactions.is_empty());
    assert!(!live_message("!r", "$e", "@you:x", "hi", "m.text", 5, &me).outgoing);
    assert!(!live_message("!r", "$e", "@me:x", "hi", "m.text", 5, &None).outgoing);
}
