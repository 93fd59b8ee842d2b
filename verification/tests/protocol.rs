use std::str::FromStr;

use secp256k1::hashes::Hash as _;

use tostr::keys;
use tostr::nostr::{Event, EventNonSigned};

const SECRET_ONE: &str = "0000000000000000000000000000000000000000000000000000000000000001";
// The x coordinate of the secp256k1 generator point: the public key of
// secret key 1.
const PUBKEY_ONE: &str = "79be667ef9dcbbac55a06295ce870b07029bfcdb2dce28d959f2815b16f81798";

fn draft() -> EventNonSigned {
    EventNonSigned {
        created_at: 100,
        kind: 1,
        tags: vec![vec!["p".to_string(), "x".to_string()]],
        content: "hello".to_string(),
    }
}

#[test]
fn sign_produces_expected_canonical_id() {
    let ev = draft().sign(SECRET_ONE).unwrap();
    assert_eq!(ev.pubkey, PUBKEY_ONE);
    let payload = format!(r#"[0,"{}",100,1,[["p","x"]],"hello"]"#, PUBKEY_ONE);
    let expected_id = secp256k1::hashes::sha256::Hash::hash(payload.as_bytes()).to_string();
    assert_eq!(ev.id, expected_id);
    assert_eq!(ev.created_at, 100);
    assert_eq!(ev.kind, 1);
    assert_eq!(ev.content, "hello");
}

#[test]
fn sign_twice_is_deterministic() {
    let a = draft().sign(SECRET_ONE).unwrap();
    let b = draft().sign(SECRET_ONE).unwrap();
    assert_eq!(a.id, b.id);
    assert_eq!(a.sig, b.sig);
    assert_eq!(a.pubkey, b.pubkey);
}

#[test]
fn signature_verifies_against_id_and_pubkey() {
    let ev = draft().sign(SECRET_ONE).unwrap();
    assert!(ev.verify());
    // A tampered id no longer verifies.
    let mut bad = ev.clone();
    bad.id = bad.id.replace(char::is_alphanumeric, "0");
    assert!(!bad.verify());

    // Independent check straight through the cryptography library.
    let secp = secp256k1::Secp256k1::new();
    let sig = secp256k1::schnorr::Signature::from_str(&ev.sig).unwrap();
    let hash = secp256k1::hashes::sha256::Hash::from_str(&ev.id).unwrap();
    let msg = secp256k1::Message::from(hash);
    let pk = secp256k1::XOnlyPublicKey::from_str(&ev.pubkey).unwrap();
    assert!(secp.verify_schnorr(&sig, &msg, &pk).is_ok());
}

#[test]
fn sign_rejects_invalid_secret() {
    assert!(draft().sign("not hex").is_none());
    assert!(draft()
        .sign("0000000000000000000000000000000000000000000000000000000000000000")
        .is_none());
}

#[test]
fn payload_escapes_content() {
    let d = EventNonSigned {
        created_at: 7,
        kind: 1,
        tags: vec![],
        content: "a\"b\\c\nd".to_string(),
    };
    let ev = d.sign(SECRET_ONE).unwrap();
    let payload = format!(
        "[0,\"{}\",7,1,[],\"a\\\"b\\\\c\\nd\"]",
        PUBKEY_ONE
    );
    let expected_id = secp256k1::hashes::sha256::Hash::hash(payload.as_bytes()).to_string();
    assert_eq!(ev.id, expected_id);
}

#[test]
fn wire_format_is_exact_and_valid_json() {
    let ev = Event {
        id: "abc".to_string(),
        pubkey: "def".to_string(),
        created_at: 42,
        kind: 1,
        tags: vec![vec!["e".to_string(), "x\"y".to_string()]],
        content: "hi there".to_string(),
        sig: "0102".to_string(),
    };
    let frame = ev.format();
    assert_eq!(
        frame,
        r#"["EVENT",{"id":"abc","pubkey":"def","created_at":42,"kind":1,"tags":[["e","x\"y"]],"content":"hi there","sig":"0102"}]"#
    );
    // The frame must parse back with a real JSON parser.
    let v: serde_json::Value = serde_json::from_str(&frame).unwrap();
    assert_eq!(v[0], "EVENT");
    assert_eq!(v[1]["id"], "abc");
    assert_eq!(v[1]["tags"][0][1], "x\"y");
    assert_eq!(v[1]["content"], "hi there");
}

#[test]
fn format_tags_renders_json_array() {
    let tags = vec![
        vec!["p".to_string(), "a".to_string()],
        vec!["e".to_string(), "b".to_string()],
    ];
    assert_eq!(Event::format_tags(&tags), r#"[["p","a"],["e","b"]]"#);
    assert_eq!(Event::format_tags(&vec![]), "[]");
}

#[test]
fn reply_tags_without_tags() {
    let ev = Event {
        id: "id1".to_string(),
        pubkey: "pk1".to_string(),
        created_at: 1,
        kind: 1,
        tags: vec![],
        content: String::new(),
        sig: String::new(),
    };
    let tags = tostr::nostr::get_tags_for_reply(ev);
    assert_eq!(
        tags,
        vec![
            vec!["p".to_string(), "pk1".to_string()],
            vec!["e".to_string(), "id1".to_string()],
        ]
    );
}

#[test]
fn reply_tags_with_existing_e_tags() {
    let ev = Event {
        id: "id1".to_string(),
        pubkey: "pk1".to_string(),
        created_at: 1,
        kind: 1,
        tags: vec![
            vec!["e".to_string(), "e1".to_string()],
            vec!["e".to_string(), "e2".to_string()],
            vec!["p".to_string(), "p1".to_string()],
            vec!["t".to_string(), "topic".to_string()],
        ],
        content: String::new(),
        sig: String::new(),
    };
    let tags = tostr::nostr::get_tags_for_reply(ev);
    assert_eq!(
        tags,
        vec![
            vec!["p".to_string(), "pk1".to_string()],
            vec!["e".to_string(), "e1".to_string()],
            vec!["e".to_string(), "id1".to_string()],
            vec!["t".to_string(), "topic".to_string()],
        ]
    );
}

#[test]
fn subscription_request_text() {
    let text = tostr::nostr::subscription_request_with_token("tok", "pk", 99);
    assert_eq!(text, r##"["REQ","tok",{"#p":["pk"],"since":99}]"##);
}

#[test]
fn subscription_request_random_token() {
    let text = tostr::nostr::subscription_request("pk", 5);
    assert!(text.starts_with("[\"REQ\",\""));
    assert!(text.ends_with("\",{\"#p\":[\"pk\"],\"since\":5}]"));
    // 64 token characters between the fixed parts.
    let prefix_len = "[\"REQ\",\"".len();
    let suffix_len = "\",{\"#p\":[\"pk\"],\"since\":5}]".len();
    assert_eq!(text.len(), prefix_len + 64 + suffix_len);
}

#[test]
fn key_to_hex_renders_bytes() {
    assert_eq!(keys::key_to_hex(&vec![0x00, 0xff, 0x1a]), "00ff1a");
    assert_eq!(keys::key_to_hex(&vec![]), "");
    assert_eq!(keys::get_hex_digit(11), 'b');
}

#[test]
fn generated_keypair_is_consistent() {
    let (secret, pubkey) = tostr::utils::get_random_keypair();
    assert_eq!(secret.len(), 64);
    // Signing with the secret yields the advertised public key.
    let ev = draft().sign(&secret).unwrap();
    assert_eq!(ev.pubkey, pubkey);
    assert!(ev.verify());
}
