use seqr::crypto::agreement::derive_pairwise;
use seqr::crypto::group::generate_group_key;
use seqr::crypto::kdf::{derive_vault_key, generate_salt};
use seqr::crypto::keys::Identity;
use seqr::desktop::attachment::{
    attachment_path, attachments_dir, chunk_count, encrypt_to_rest, guess_mime, open_chunk, read_rest_bytes,
    read_rest_records, seal_chunk, seal_file_chunk, Reassembler, CHUNK_SIZE,
};
use seqr::desktop::commands::{
    add_friend, attachment_mime, create_group, create_group_with, rebuild_group_keys, data_url, group_members, list_conversations,
    prepare_attachment, rebuild_group_keys_with, remove_friend, resolve_send_ctx, rotate_direct_with,
    safety_number_with, send_group_message, send_message, valid_att_id,
};
use seqr::desktop::config::{AppConfig, DEFAULT_MAILBOX_CERT, DEFAULT_MAILBOX_URL};
use seqr::desktop::conversation::{current_direct_key, direct_conversation_id, open_direct_key, seal_direct_key};
use seqr::desktop::group::{new_group_id, open_group_key, seal_group_key};
use seqr::desktop::identity::{decode_token, encode_token, friend_from, profile_for, self_as_friend, validate_profile};
use seqr::desktop::message::{build_frame, open_frame};
use seqr::desktop::net::{
    accept_attachment_header, conv_key_for, handle_invite, process_incoming, receive_attachment_chunk, receive_key_update,
    receive_message, record_incoming_attachment, Inbound,
};
use seqr::desktop::packet::{AttachmentChunk, Packet};
use seqr::desktop::vault::{new_vault_data, open_vault, seal_vault, vault_path, AttachmentInfo, Friend, StoredMessage, VaultData};
use seqr::desktop::CoreError;
use seqr::hexcode::hex_encode;
use seqr::protocol::ProfileBlob;

fn friend_of(id: &Identity, name: &str) -> Friend {
    let p = id.public();
    Friend {
        display_name: name.into(),
        agreement_public: hex_encode(&p.agreement_public),
        signing_public: hex_encode(&p.signing_public),
        node_addr: String::new(),
    }
}

fn account(name: &str) -> (Identity, VaultData) {
    let id = Identity::generate().unwrap();
    let data = new_vault_data(name, &id);
    (id, data)
}

#[test]
fn conversation_id_is_order_independent() {
    let a = "aa".repeat(32);
    let b = "bb".repeat(32);
    assert_eq!(direct_conversation_id(&a, &b), direct_conversation_id(&b, &a));
}

#[test]
fn conversation_id_puts_smaller_key_first() {
    assert_eq!(direct_conversation_id("bb", "aa"), "aa-bb");
    assert_eq!(direct_conversation_id("ab", "ab"), "ab-ab");
    assert_ne!(direct_conversation_id("aa", "bb"), direct_conversation_id("aa", "cc"));
    assert_ne!(direct_conversation_id("ab", "cd"), direct_conversation_id("ac", "bd"));
}

#[test]
fn rotated_direct_key_seals_and_opens() {
    let alice = Identity::generate().unwrap();
    let bob = Identity::generate().unwrap();
    let bob_friend = friend_of(&bob, "Bob");
    let alice_friend = friend_of(&alice, "Alice");
    let new_key = generate_group_key().unwrap();
    let conv = "c";
    let sealed = seal_direct_key(&alice, &bob_friend, conv, 1, &new_key).unwrap();
    let opened = open_direct_key(&bob, &alice_friend, conv, 1, &sealed).unwrap();
    assert_eq!(opened, new_key);
    assert!(open_direct_key(&bob, &alice_friend, conv, 2, &sealed).is_err());
}

#[test]
fn group_key_seals_and_opens_for_member() {
    let alice = Identity::generate().unwrap();
    let bob = Identity::generate().unwrap();
    let kg = generate_group_key().unwrap();
    let gid = new_group_id().unwrap();
    let sealed = seal_group_key(&alice, &friend_of(&bob, "Bob"), &gid, 0, &kg).unwrap();
    let opened = open_group_key(&bob, &friend_of(&alice, "Alice"), &gid, 0, &sealed).unwrap();
    assert_eq!(opened, kg);
}

#[test]
fn outsider_cannot_open() {
    let alice = Identity::generate().unwrap();
    let bob = Identity::generate().unwrap();
    let mallory = Identity::generate().unwrap();
    let kg = generate_group_key().unwrap();
    let gid = new_group_id().unwrap();
    let sealed = seal_group_key(&alice, &friend_of(&bob, "Bob"), &gid, 0, &kg).unwrap();
    assert!(open_group_key(&mallory, &friend_of(&alice, "Alice"), &gid, 0, &sealed).is_err());
}

#[test]
fn bad_agreement_key_is_a_profile_error() {
    let alice = Identity::generate().unwrap();
    let mut f = friend_of(&alice, "A");
    f.agreement_public = "zz".into();
    let r = seal_group_key(&alice, &f, "g", 0, &[0u8; 32]);
    assert_eq!(r, Err(CoreError::BadProfile("bad agreement key".into())));
    assert_eq!(r.unwrap_err().message(), "invalid profile blob: bad agreement key");
}

#[test]
fn group_ids_are_32_hex_digits() {
    let g = new_group_id().unwrap();
    assert_eq!(g.len(), 32);
    assert!(g.bytes().all(|b| b.is_ascii_hexdigit()));
}

#[test]
fn frame_roundtrip_between_two_parties() {
    let alice = Identity::generate().unwrap();
    let bob = Identity::generate().unwrap();
    let key_a = derive_pairwise(&alice.agreement_secret, &bob.public().agreement_public());
    let key_b = derive_pairwise(&bob.agreement_secret, &alice.public().agreement_public());
    assert_eq!(key_a, key_b);
    let frame = build_frame(&alice, "conv-1", 0, &key_a, 0, "hello Bob").unwrap();
    let opened = open_frame(&key_b, &frame).unwrap();
    assert_eq!(opened, "hello Bob");
}

#[test]
fn tampered_signature_rejected() {
    let alice = Identity::generate().unwrap();
    let bob = Identity::generate().unwrap();
    let key = derive_pairwise(&alice.agreement_secret, &bob.public().agreement_public());
    let mut frame = build_frame(&alice, "c", 0, &key, 0, "hi").unwrap();
    frame.signature = "00".repeat(64);
    assert!(open_frame(&key, &frame).is_err());
}

#[test]
fn wrong_epoch_key_rejected() {
    let alice = Identity::generate().unwrap();
    let bob = Identity::generate().unwrap();
    let key = derive_pairwise(&alice.agreement_secret, &bob.public().agreement_public());
    let frame = build_frame(&alice, "c", 0, &key, 0, "hi").unwrap();
    let mut tampered = frame.clone();
    tampered.epoch = 1;
    assert!(open_frame(&key, &tampered).is_err());
}

#[test]
fn frame_fields() {
    let alice = Identity::generate().unwrap();
    let frame = build_frame(&alice, "c", 3, &[1u8; 32], 9, "x").unwrap();
    assert_eq!(frame.conversation_id, "c");
    assert_eq!(frame.epoch, 3);
    assert_eq!(frame.seq, 9);
    assert_eq!(frame.sender, hex_encode(&alice.public().signing_public));
    assert_eq!(frame.signature.len(), 128);
    assert_eq!(frame.ciphertext.len(), 2 * (1 + 28));
}

#[test]
fn rejects_garbage_token() {
    assert!(decode_token("not-a-token").is_err());
    assert!(decode_token("seqr:zzzz").is_err());
}

#[test]
fn token_errors_say_why() {
    assert_eq!(decode_token("nope"), Err(CoreError::BadProfile("missing seqr: prefix".into())));
    assert_eq!(decode_token("seqr:abc"), Err(CoreError::BadProfile("not valid hex".into())));
}

#[test]
fn export_import_roundtrip() {
    let (_id, data) = account("Alice");
    let profile = profile_for(&data).unwrap();
    let json = format!(
        "{{\"v\":{},\"display_name\":\"{}\",\"agreement_public\":\"{}\",\"signing_public\":\"{}\",\"node_addr\":\"{}\"}}",
        profile.v, profile.display_name, profile.agreement_public, profile.signing_public, profile.node_addr
    );
    let token = encode_token(json.as_bytes());
    assert!(token.starts_with("seqr:"));
    let decoded = decode_token(&format!("  {token}\n")).unwrap();
    assert_eq!(decoded, json.as_bytes());
    assert_eq!(validate_profile(profile.clone()), Ok(profile));
}

#[test]
fn profile_checks() {
    let (_id, data) = account("Alice");
    let profile = profile_for(&data).unwrap();
    assert_eq!(profile.v, 1);
    assert_eq!(profile.display_name, "Alice");
    let mut old = profile.clone();
    old.v = 7;
    assert_eq!(validate_profile(old), Err(CoreError::BadProfile("unsupported version 7".into())));
    let mut short = profile.clone();
    short.signing_public = "abcd".into();
    assert_eq!(validate_profile(short), Err(CoreError::BadProfile("public keys must be 32 bytes".into())));
    let f = friend_from(&profile);
    assert_eq!(f.signing_public, profile.signing_public);
    let me = self_as_friend(&data).unwrap();
    assert_eq!(me.agreement_public, profile.agreement_public);
}

#[test]
fn chunk_roundtrip_and_aad_binding() {
    let key = [5u8; 32];
    let ct = seal_chunk(&key, "abc", 3, b"hello chunk").unwrap();
    assert_eq!(open_chunk(&key, "abc", 3, &ct).unwrap(), b"hello chunk");
    assert!(open_chunk(&key, "abc", 4, &ct).is_err());
    assert!(open_chunk(&key, "xyz", 3, &ct).is_err());
}

#[test]
fn chunk_count_math() {
    assert_eq!(chunk_count(0), 1);
    assert_eq!(chunk_count(1), 1);
    assert_eq!(chunk_count(CHUNK_SIZE as u64), 1);
    assert_eq!(chunk_count(CHUNK_SIZE as u64 + 1), 2);
}

#[test]
fn reassemble_two_chunks_out_of_order() {
    let key = [9u8; 32];
    let id = "att1".to_string();
    let chunk0 = vec![b'A'; CHUNK_SIZE];
    let chunk1 = b"BBB".to_vec();
    let size = (CHUNK_SIZE + chunk1.len()) as u64;
    let info = AttachmentInfo { id: id.clone(), filename: "f.bin".into(), mime: "x".into(), size };
    let vault_key = [3u8; 32];
    let c0 = seal_chunk(&key, &id, 0, &chunk0).unwrap();
    let c1 = seal_chunk(&key, &id, 1, &chunk1).unwrap();
    let mut r = Reassembler::new(info, "c".into(), "s".into(), 0, key, vault_key, 2);
    let mut file: Vec<u8> = Vec::new();
    let mut write = |w: Option<(u64, Vec<u8>)>| {
        if let Some((off, bytes)) = w {
            let end = off as usize + bytes.len();
            if file.len() < end {
                file.resize(end, 0);
            }
            file[off as usize..end].copy_from_slice(&bytes);
        }
    };
    let o1 = r.add_chunk(1, &c1).unwrap();
    assert!(!o1.complete);
    write(o1.write);
    let o0 = r.add_chunk(0, &c0).unwrap();
    assert!(o0.complete);
    write(o0.write);
    let again = r.add_chunk(0, &c0).unwrap();
    assert!(again.complete && again.write.is_none());
    let stored = encrypt_to_rest(&r.vault_key(), r.info().id.as_str(), &file).unwrap();
    let bytes = read_rest_bytes(&vault_key, &id, &stored).unwrap();
    assert_eq!(bytes.len() as u64, size);
    assert_eq!(&bytes[..CHUNK_SIZE], &chunk0[..]);
    assert_eq!(&bytes[CHUNK_SIZE..], b"BBB");
}

#[test]
fn rest_records_detect_damage() {
    let vk = [1u8; 32];
    let stored = encrypt_to_rest(&vk, "a", b"hello").unwrap();
    assert_eq!(stored.len(), 4 + 5 + 28);
    assert_eq!(read_rest_bytes(&vk, "a", &stored).unwrap(), b"hello");
    assert!(matches!(read_rest_bytes(&vk, "b", &stored), Err(CoreError::Crypto(_))));
    assert_eq!(
        read_rest_bytes(&vk, "a", &stored[..20]),
        Err(CoreError::Storage("failed to fill whole buffer".into()))
    );
    assert_eq!(read_rest_bytes(&vk, "a", &[]).unwrap(), Vec::<u8>::new());
    let empty = encrypt_to_rest(&vk, "a", b"").unwrap();
    assert_eq!(empty.len(), 4 + 28);
    assert_eq!(read_rest_bytes(&vk, "a", &empty).unwrap(), Vec::<u8>::new());
}

#[test]
fn attachment_paths_and_mime() {
    assert_eq!(attachments_dir("/d"), "/d/attachments");
    assert_eq!(attachment_path("/d", "abc"), "/d/attachments/abc");
    assert_eq!(guess_mime("Photo.JPG"), "image/jpeg");
    assert_eq!(guess_mime("a.tar.gz"), "application/octet-stream");
    assert_eq!(guess_mime("notes.txt"), "text/plain");
    assert_eq!(guess_mime("png"), "image/png");
    assert_eq!(guess_mime("x.svg"), "image/svg+xml");
    assert!(valid_att_id("abcDEF0123"));
    assert!(!valid_att_id(""));
    assert!(!valid_att_id("../x"));
    assert!(!valid_att_id(&"a".repeat(65)));
}

#[test]
fn default_points_at_vps() {
    assert_eq!(AppConfig::default().mailbox_url, DEFAULT_MAILBOX_URL);
}

#[test]
fn config_resolution_order() {
    let c = AppConfig::resolve(None, None, None);
    assert_eq!(c.mailbox_url, DEFAULT_MAILBOX_URL);
    assert_eq!(c.mailbox_cert.as_deref(), Some(DEFAULT_MAILBOX_CERT));
    let toml = "# settings\n  mailbox_url = \"https://one\"\r\nother = 1\nmailbox_url=\"https://two\"\n".to_string();
    let c = AppConfig::resolve(Some(toml.clone()), None, Some("PEM".into()));
    assert_eq!(c.mailbox_url, "https://two");
    assert_eq!(c.mailbox_cert.as_deref(), Some("PEM"));
    let c = AppConfig::resolve(Some(toml), Some("https://env".into()), None);
    assert_eq!(c.mailbox_url, "https://env");
}

#[test]
fn create_unlock_roundtrip() {
    let (_id, data) = account("Alice");
    assert_eq!(data.display_name, "Alice");
    let salt = generate_salt().unwrap();
    let key = derive_vault_key(b"hunter2", &salt).unwrap();
    let plain = format!("{{\"agreement_secret\":\"{}\"}}", data.agreement_secret).into_bytes();
    let (salt_hex, sealed_hex) = seal_vault(&key, &salt, &plain).unwrap();
    let (k2, reopened) = open_vault("hunter2", &salt_hex, &sealed_hex).unwrap();
    assert_eq!(k2, key);
    assert_eq!(reopened, plain);
}

#[test]
fn wrong_password_rejected() {
    let salt = generate_salt().unwrap();
    let key = derive_vault_key(b"correct", &salt).unwrap();
    let (salt_hex, sealed_hex) = seal_vault(&key, &salt, b"{}").unwrap();
    assert!(matches!(open_vault("wrong", &salt_hex, &sealed_hex), Err(CoreError::BadPassword)));
    assert_eq!(
        open_vault("correct", "xyz", &sealed_hex).unwrap_err(),
        CoreError::Storage("bad salt".into())
    );
}

#[test]
fn save_persists_friends() {
    let (_id, mut data) = account("Alice");
    let salt = generate_salt().unwrap();
    let key = derive_vault_key(b"pw", &salt).unwrap();
    let bob = Friend {
        display_name: "Bob".into(),
        agreement_public: "aa".into(),
        signing_public: "bb".into(),
        node_addr: "node".into(),
    };
    add_friend(&mut data, bob.clone()).unwrap();
    // Serialize the roster, seal it under the vault key, reopen it with the password.
    let roster: Vec<Vec<String>> = data
        .friends
        .iter()
        .map(|f| vec![f.display_name.clone(), f.agreement_public.clone(), f.signing_public.clone(), f.node_addr.clone()])
        .collect();
    let plain = serde_json::to_vec(&roster).unwrap();
    let (salt_hex, sealed_hex) = seal_vault(&key, &salt, &plain).unwrap();
    let (_k, reopened) = open_vault("pw", &salt_hex, &sealed_hex).unwrap();
    let friends: Vec<Vec<String>> = serde_json::from_slice(&reopened).unwrap();
    assert_eq!(friends.len(), 1);
    assert_eq!(friends[0][0], "Bob");
    assert_eq!(add_friend(&mut data, bob), Err(CoreError::DuplicateFriend));
    remove_friend(&mut data, "bb");
    assert!(data.friends.is_empty());
}

#[test]
fn vault_identity_and_path() {
    let (id, data) = account("A");
    let back = data.identity().unwrap();
    assert_eq!(back.public(), id.public());
    let mut broken = data.clone();
    broken.signing_secret = "12".into();
    assert!(matches!(broken.identity(), Err(CoreError::Storage(ref m)) if m == "bad key length"));
    broken.agreement_secret = "q".into();
    assert!(matches!(broken.identity(), Err(CoreError::Storage(ref m)) if m == "bad hex"));
    assert_eq!(vault_path("/home/a"), "/home/a/vault.json");
}

fn msg(conv: &str, sender: &str, outgoing: bool, seq: u64) -> StoredMessage {
    StoredMessage {
        conversation_id: conv.into(),
        sender: sender.into(),
        body: "b".into(),
        ts: 0,
        outgoing,
        seq,
        attachment: None,
    }
}

#[test]
fn history_and_sequence_numbers() {
    let (_id, mut data) = account("A");
    assert_eq!(data.add_message(msg("c1", "me", true, 0)), 1);
    assert_eq!(data.add_message(msg("c2", "x", false, 0)), 0);
    assert_eq!(data.add_message(msg("c1", "y", false, 4)), 1);
    assert_eq!(data.add_message(msg("c1", "me", true, 1)), 2);
    assert_eq!(data.history("c1").len(), 3);
    assert_eq!(data.history("c3").len(), 0);
    assert_eq!(data.next_seq("c1"), 2);
    assert_eq!(data.next_seq("c2"), 0);
    assert!(data.has_incoming("c1", "y", 4));
    assert!(!data.has_incoming("c1", "me", 0));
    data.set_direct_key("c1", 3, "k".into());
    data.set_direct_key("c1", 4, "k2".into());
    assert_eq!(data.direct_keys.len(), 1);
    assert_eq!(data.direct_key("c1").unwrap().epoch, 4);
    assert!(data.direct_key("c2").is_none());
}

#[test]
fn message_between_two_accounts() {
    let (alice, mut a_data) = account("Alice");
    let (bob, mut b_data) = account("Bob");
    add_friend(&mut a_data, friend_of(&bob, "Bob")).unwrap();
    add_friend(&mut b_data, friend_of(&alice, "Alice")).unwrap();
    let bob_hex = hex_encode(&bob.public().signing_public);
    let (stored, frame) = send_message(&mut a_data, &bob_hex, "hello Bob").unwrap();
    assert_eq!(stored.seq, 0);
    assert!(stored.outgoing);
    assert_eq!(a_data.next_seq(&stored.conversation_id), 1);
    let got = receive_message(&mut b_data, frame.clone()).unwrap().unwrap();
    assert_eq!(got.body, "hello Bob");
    assert_eq!(got.conversation_id, stored.conversation_id);
    assert!(!got.outgoing);
    assert_eq!(receive_message(&mut b_data, frame.clone()).unwrap(), None);
    assert_eq!(b_data.messages.len(), 1);
    assert_eq!(process_incoming(&mut b_data, Packet::Message(frame)).unwrap(), Inbound::Nothing);
    let (_c, mut stranger) = account("Carol");
    let (_s, f2) = send_message(&mut a_data, &bob_hex, "again").unwrap();
    assert_eq!(receive_message(&mut stranger, f2), Err(CoreError::UnknownSender));
    assert_eq!(send_message(&mut a_data, "unknown", "x"), Err(CoreError::UnknownSender));
}

#[test]
fn rotation_reaches_the_friend() {
    let (alice, mut a_data) = account("Alice");
    let (bob, mut b_data) = account("Bob");
    add_friend(&mut a_data, friend_of(&bob, "Bob")).unwrap();
    add_friend(&mut b_data, friend_of(&alice, "Alice")).unwrap();
    let bob_hex = hex_encode(&bob.public().signing_public);
    let alice_hex = hex_encode(&alice.public().signing_public);
    let ku = rotate_direct_with(&mut a_data, &bob_hex, [7u8; 32]).unwrap();
    assert_eq!(ku.epoch, 1);
    receive_key_update(&mut b_data, ku).unwrap();
    let a_side = current_direct_key(&a_data, &alice, &a_data.friends[0]).unwrap();
    let b_side = current_direct_key(&b_data, &bob, &b_data.friends[0]).unwrap();
    assert_eq!(a_side, (1, [7u8; 32]));
    assert_eq!(b_side, (1, [7u8; 32]));
    let (_m, frame) = send_message(&mut b_data, &alice_hex, "rotated").unwrap();
    assert_eq!(frame.epoch, 1);
    assert_eq!(receive_message(&mut a_data, frame).unwrap().unwrap().body, "rotated");
    let conv = direct_conversation_id(&alice_hex, &bob_hex);
    assert_eq!(conv_key_for(&a_data, &conv, &bob_hex, 1).unwrap(), [7u8; 32]);
    assert!(conv_key_for(&a_data, &conv, &bob_hex, 5).is_err());
    let ctx = resolve_send_ctx(&a_data, &conv, &alice_hex).unwrap();
    assert_eq!(ctx, ([7u8; 32], 1, vec![bob_hex.clone()]));
}

#[test]
fn group_lifecycle() {
    let (alice, mut a_data) = account("Alice");
    let (bob, mut b_data) = account("Bob");
    let (carol, mut c_data) = account("Carol");
    add_friend(&mut a_data, friend_of(&bob, "Bob")).unwrap();
    add_friend(&mut a_data, friend_of(&carol, "Carol")).unwrap();
    let bob_hex = hex_encode(&bob.public().signing_public);
    let carol_hex = hex_encode(&carol.public().signing_public);
    let members = vec![bob_hex.clone(), carol_hex.clone()];
    let (count, invites) = create_group_with(&mut a_data, "Team", &members, [2u8; 32], "g1".into()).unwrap();
    assert_eq!(count, 3);
    assert_eq!(invites.len(), 2);
    assert_eq!(invites[0].0, bob_hex);
    assert_eq!(invites[0].1.members.len(), 3);
    assert_eq!(group_members(&a_data, "g1").len(), 2);
    assert_eq!(handle_invite(&mut b_data, invites[0].1.clone()).unwrap(), "g1");
    assert_eq!(b_data.groups[0].members.len(), 2);
    assert_eq!(b_data.group_key("g1"), Some([2u8; 32]));
    assert!(handle_invite(&mut c_data, invites[0].1.clone()).is_err());
    let (_m, frame, recipients) = send_group_message(&mut a_data, "g1", "hi team").unwrap();
    assert_eq!(recipients, members);
    assert_eq!(receive_message(&mut b_data, frame).unwrap().unwrap().body, "hi team");
    let rotated = rebuild_group_keys_with(&mut a_data, "g1", Some(&carol_hex), [3u8; 32]).unwrap();
    assert_eq!(rotated.len(), 1);
    assert_eq!(a_data.groups[0].epoch, 1);
    assert_eq!(a_data.groups[0].members.len(), 1);
    handle_invite(&mut b_data, rotated[0].1.clone()).unwrap();
    assert_eq!(b_data.groups[0].epoch, 1);
    handle_invite(&mut b_data, invites[0].1.clone()).unwrap();
    assert_eq!(b_data.groups[0].epoch, 1, "an older invitation never lowers the epoch");
    assert_eq!(b_data.group_key("g1"), Some([3u8; 32]));
    let listed = list_conversations(&a_data).unwrap();
    assert_eq!(listed.len(), 3);
    assert_eq!(listed[2].kind, "group");
    assert_eq!(listed[2].members, 2);
    assert_eq!(listed[0].kind, "direct");
    assert_eq!(
        create_group_with(&mut a_data, "X", &vec!["nobody".into()], [0u8; 32], "g2".into()),
        Err(CoreError::UnknownSender)
    );
}

#[test]
fn attachment_preparation() {
    let (alice, mut a_data) = account("Alice");
    let (bob, _b) = account("Bob");
    add_friend(&mut a_data, friend_of(&bob, "Bob")).unwrap();
    let conv = direct_conversation_id(
        &hex_encode(&alice.public().signing_public),
        &hex_encode(&bob.public().signing_public),
    );
    let (m, _key, epoch, recipients, chunks, meta) = prepare_attachment(&mut a_data, &conv, "pic.PNG", 10, "aa").unwrap();
    assert_eq!(epoch, 0);
    assert_eq!(meta.att_id, "aa");
    assert_eq!(meta.sender, m.sender);
    assert_eq!(meta.seq, m.seq);
    assert_eq!(meta.mime, "image/png");
    assert_eq!((meta.size, meta.chunks, meta.epoch), (10, 1, 0));
    assert_eq!(chunks, 1);
    assert_eq!(recipients.len(), 1);
    assert_eq!(m.attachment.as_ref().unwrap().mime, "image/png");
    assert_eq!(attachment_mime(&a_data, "aa"), "image/png");
    assert_eq!(attachment_mime(&a_data, "zz"), "application/octet-stream");
    assert_eq!(
        prepare_attachment(&mut a_data, &conv, "big", 2 * 1024 * 1024 * 1024, "bb"),
        Err(CoreError::Storage("file exceeds the 1 GB limit".into()))
    );
    assert_eq!(data_url("text/plain", b"hi"), "data:text/plain;base64,aGk=");
    assert!(safety_number_with(&a_data, &hex_encode(&bob.public().signing_public)).is_ok());
    assert_eq!(safety_number_with(&a_data, "xx"), Err(CoreError::BadProfile("bad friend key".into())));
}

#[test]
fn core_error_messages() {
    assert_eq!(CoreError::NoAccount.message(), "no account exists yet");
    assert_eq!(CoreError::Storage("x".into()).message(), "storage error: x");
    assert_eq!(CoreError::Crypto("y".into()).message(), "crypto error: y");
}

#[test]
fn profile_blob_version() {
    assert_eq!(ProfileBlob::VERSION, 1);
}

#[test]
fn file_chunks_are_sealed_from_their_offsets() {
    let key = [4u8; 32];
    let mut data = vec![b'A'; CHUNK_SIZE];
    data.extend_from_slice(b"tail");
    let c0 = seal_file_chunk(&key, "att", &data, 0).unwrap();
    let c1 = seal_file_chunk(&key, "att", &data, 1).unwrap();
    let c2 = seal_file_chunk(&key, "att", &data, 2).unwrap();
    assert_eq!(open_chunk(&key, "att", 0, &c0).unwrap(), vec![b'A'; CHUNK_SIZE]);
    assert_eq!(open_chunk(&key, "att", 1, &c1).unwrap(), b"tail");
    assert_eq!(open_chunk(&key, "att", 2, &c2).unwrap(), Vec::<u8>::new());
    assert!(open_chunk(&key, "att", 0, &c1).is_err());
    let empty = seal_file_chunk(&key, "att", b"", 0).unwrap();
    assert_eq!(open_chunk(&key, "att", 0, &empty).unwrap(), Vec::<u8>::new());
}

#[test]
fn chunks_are_recorded_only_when_committed() {
    let key = [9u8; 32];
    let info = AttachmentInfo { id: "att1".into(), filename: "f".into(), mime: "x".into(), size: 3 };
    let mut r = Reassembler::new(info, "c".into(), "s".into(), 0, key, [3u8; 32], 1);
    let c0 = seal_chunk(&key, "att1", 0, b"abc").unwrap();
    let w = r.take_chunk(0, &c0).unwrap().unwrap();
    assert_eq!(w, (0, b"abc".to_vec()));
    assert_eq!(r.received_count(), 0);
    assert!(!r.has_chunk(0));
    assert!(r.take_chunk(0, b"garbage").is_err());
    assert!(r.commit_chunk(0));
    assert!(r.has_chunk(0));
    assert_eq!(r.take_chunk(0, &c0).unwrap(), None);
    assert!(r.commit_chunk(0));
    assert_eq!(r.received_count(), 1);
}

#[test]
fn rest_layout_is_one_record_per_chunk() {
    let vk = [1u8; 32];
    let mut plain = vec![7u8; CHUNK_SIZE];
    plain.extend_from_slice(b"xyz");
    let stored = encrypt_to_rest(&vk, "a", &plain).unwrap();
    let len0 = u32::from_be_bytes([stored[0], stored[1], stored[2], stored[3]]) as usize;
    assert_eq!(len0, CHUNK_SIZE + 28);
    let rest = &stored[4 + len0..];
    let len1 = u32::from_be_bytes([rest[0], rest[1], rest[2], rest[3]]) as usize;
    assert_eq!(len1, 3 + 28);
    assert_eq!(rest.len(), 4 + len1);
    let exact = encrypt_to_rest(&vk, "a", &vec![0u8; CHUNK_SIZE]).unwrap();
    assert_eq!(exact.len(), 4 + CHUNK_SIZE + 28);
}

#[test]
fn add_message_counts_outgoing() {
    let (_id, mut data) = account("A");
    assert_eq!(data.add_message(msg("c", "me", true, 0)), 1);
    assert_eq!(data.add_message(msg("c", "x", false, 0)), 1);
    assert_eq!(data.add_message(msg("c", "me", true, 1)), 2);
    assert_eq!(data.add_message(msg("d", "me", true, 0)), 1);
}

#[test]
fn exhausted_epochs_refuse_rotation() {
    let (_alice, mut a_data) = account("Alice");
    let (bob, _b) = account("Bob");
    let (carol, _c) = account("Carol");
    add_friend(&mut a_data, friend_of(&bob, "Bob")).unwrap();
    add_friend(&mut a_data, friend_of(&carol, "Carol")).unwrap();
    let bob_hex = hex_encode(&bob.public().signing_public);
    let carol_hex = hex_encode(&carol.public().signing_public);
    let ku = rotate_direct_with(&mut a_data, &bob_hex, [7u8; 32]).unwrap();
    a_data.set_direct_key(&ku.conversation_id, u64::MAX, hex_encode(&[7u8; 32]));
    let before = a_data.clone();
    assert_eq!(
        rotate_direct_with(&mut a_data, &bob_hex, [8u8; 32]),
        Err(CoreError::Crypto("key epoch exhausted".into()))
    );
    assert_eq!(a_data, before);
    let members = vec![bob_hex.clone(), carol_hex.clone()];
    create_group_with(&mut a_data, "Team", &members, [2u8; 32], "g1".into()).unwrap();
    create_group_with(&mut a_data, "Other", &members, [5u8; 32], "g2".into()).unwrap();
    a_data.groups[1].epoch = u64::MAX;
    let before = a_data.clone();
    assert_eq!(
        rebuild_group_keys_with(&mut a_data, "g2", None, [3u8; 32]),
        Err(CoreError::Crypto("key epoch exhausted".into()))
    );
    assert_eq!(a_data, before);
    // A full epoch elsewhere does not stop rotating this group.
    let invites = rebuild_group_keys_with(&mut a_data, "g1", Some(&carol_hex), [3u8; 32]).unwrap();
    assert_eq!(invites.len(), 1);
    assert_eq!(a_data.groups[0].epoch, 1);
}

#[test]
fn record_reader_yields_what_opens_before_a_failure() {
    let vk = [1u8; 32];
    let mut plain = vec![7u8; CHUNK_SIZE];
    plain.extend_from_slice(b"xyz");
    let stored = encrypt_to_rest(&vk, "a", &plain).unwrap();
    let (all, none) = read_rest_records(&vk, "a", &stored);
    assert_eq!(all, vec![vec![7u8; CHUNK_SIZE], b"xyz".to_vec()]);
    assert!(none.is_none());
    let mut damaged = stored.clone();
    let last = damaged.len() - 1;
    damaged[last] ^= 1;
    let (first, err) = read_rest_records(&vk, "a", &damaged);
    assert_eq!(first, vec![vec![7u8; CHUNK_SIZE]]);
    assert!(matches!(err, Some(CoreError::Crypto(_))));
    let (cut, err) = read_rest_records(&vk, "a", &stored[..stored.len() - 2]);
    assert_eq!(cut.len(), 1);
    assert_eq!(err, Some(CoreError::Storage("failed to fill whole buffer".into())));
}

#[test]
fn attachment_header_then_chunks_reach_the_recipient() {
    let (alice, mut a_data) = account("Alice");
    let (bob, mut b_data) = account("Bob");
    add_friend(&mut a_data, friend_of(&bob, "Bob")).unwrap();
    add_friend(&mut b_data, friend_of(&alice, "Alice")).unwrap();
    let conv = direct_conversation_id(
        &hex_encode(&alice.public().signing_public),
        &hex_encode(&bob.public().signing_public),
    );
    let file = b"attachment bytes".to_vec();
    let (_m, key, _e, _r, count, meta) =
        prepare_attachment(&mut a_data, &conv, "f.txt", file.len() as u64, "att9").unwrap();
    assert_eq!(
        process_incoming(&mut b_data, Packet::AttachmentMeta(meta.clone())).unwrap(),
        Inbound::AttachmentHeader(meta.clone())
    );
    let mut r = accept_attachment_header(&b_data, &meta, [6u8; 32]).unwrap();
    assert_eq!(r.received_count(), 0);
    assert_eq!(r.info().filename, "f.txt");
    let mut forged = meta.clone();
    forged.size = 99;
    assert!(matches!(accept_attachment_header(&b_data, &forged, [6u8; 32]), Err(CoreError::Crypto(_))));
    let mut big = meta.clone();
    big.size = 2 * 1024 * 1024 * 1024;
    assert_eq!(
        accept_attachment_header(&b_data, &big, [6u8; 32]).err(),
        Some(CoreError::Storage("attachment exceeds size cap".into()))
    );
    let (_x, stranger) = account("Mallory");
    assert_eq!(accept_attachment_header(&stranger, &meta, [6u8; 32]).err(), Some(CoreError::UnknownSender));
    assert_eq!(count, 1);
    let sealed = seal_file_chunk(&key, "att9", &file, 0).unwrap();
    let chunk = AttachmentChunk { att_id: "att9".into(), index: 0, data: hex_encode(&sealed) };
    assert_eq!(
        receive_attachment_chunk(&r, 0, "zz"),
        Err(CoreError::Crypto("bad chunk hex".into()))
    );
    let (off, plain) = receive_attachment_chunk(&r, 0, &chunk.data).unwrap().unwrap();
    assert_eq!((off, plain), (0, file.clone()));
    assert!(r.commit_chunk(0));
    let info = r.info().clone();
    let m = record_incoming_attachment(&mut b_data, &r, info.clone(), 42);
    assert!(!m.outgoing && m.body.is_empty());
    assert_eq!((m.conversation_id.as_str(), m.seq, m.ts), (conv.as_str(), 0, 42));
    assert_eq!(m.attachment, Some(info));
    assert_eq!(b_data.messages.last(), Some(&m));
}

#[test]
fn fresh_group_errors_come_before_drawing() {
    let (_alice, mut a_data) = account("Alice");
    let before = a_data.clone();
    assert_eq!(create_group(&mut a_data, "T", &vec!["nobody".to_string()]), Err(CoreError::UnknownSender));
    assert_eq!(a_data, before);
    assert_eq!(rebuild_group_keys(&mut a_data, "nope", None), Err(CoreError::UnknownSender));
    assert_eq!(a_data, before);
}
