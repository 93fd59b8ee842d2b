use tostr::nostr::{Event, EventNonSigned};
use tostr::wire::wire_parse;

fn frame(body: &str) -> String {
    format!(r#"["EVENT","sub1",{}]"#, body)
}

#[test]
fn parse_round_trips_the_wire_format() {
    let ev = Event {
        id: "abc".to_string(),
        pubkey: "def".to_string(),
        created_at: 42,
        kind: 1,
        tags: vec![
            vec!["e".to_string(), "x\"y".to_string()],
            vec!["tweet_timestamp".to_string(), "17".to_string()],
        ],
        content: "line1\nline2 \\ \"quoted\"".to_string(),
        sig: "0102".to_string(),
    };
    let outbound = ev.format();
    // The outbound frame has no subscription id; a relay's inbound one
    // does. Splice one in.
    let inbound = outbound.replace("[\"EVENT\",{", "[\"EVENT\",\"sub9\",{");
    let msg = wire_parse(&inbound).unwrap();
    assert_eq!(msg.msg_type, "EVENT");
    assert_eq!(msg.subscription_id, "sub9");
    assert_eq!(msg.content.id, ev.id);
    assert_eq!(msg.content.pubkey, ev.pubkey);
    assert_eq!(msg.content.created_at, 42);
    assert_eq!(msg.content.kind, 1);
    assert_eq!(msg.content.tags, ev.tags);
    assert_eq!(msg.content.content, ev.content);
    assert_eq!(msg.content.sig, ev.sig);
}

#[test]
fn parse_accepts_any_field_order_and_spacing() {
    let text = " [ \"EVENT\" , \"s\" , { \"content\" : \"hi\" , \"sig\" : \"ff\" ,\n\t\"tags\" : [ [ \"p\" , \"x\" ] ] , \"kind\" : 1 , \"created_at\" : 7 ,\n\"pubkey\" : \"pk\" , \"id\" : \"idx\" } ] ";
    let msg = wire_parse(text).unwrap();
    assert_eq!(msg.content.id, "idx");
    assert_eq!(msg.content.pubkey, "pk");
    assert_eq!(msg.content.created_at, 7);
    assert_eq!(msg.content.kind, 1);
    assert_eq!(msg.content.tags, vec![vec!["p".to_string(), "x".to_string()]]);
    assert_eq!(msg.content.content, "hi");
    assert_eq!(msg.content.sig, "ff");
}

#[test]
fn parse_decodes_escapes() {
    let body = r#"{"id":"i","pubkey":"p","created_at":0,"kind":1,"tags":[],"content":"a\"b\\c\ndAé","sig":"s"}"#;
    let msg = wire_parse(&frame(body)).unwrap();
    assert_eq!(msg.content.content, "a\"b\\c\ndA\u{e9}");
}

#[test]
fn parse_ignores_unknown_fields() {
    let body = r#"{"id":"i","pubkey":"p","created_at":0,"kind":1,"tags":[],"content":"c","sig":"s","extra":"zzz","more":7}"#;
    let msg = wire_parse(&frame(body)).unwrap();
    assert_eq!(msg.content.id, "i");
}

#[test]
fn parse_rejects_malformed_frames() {
    assert!(wire_parse("").is_err());
    assert!(wire_parse("not json").is_err());
    assert!(wire_parse(r#"["NOTICE","hello"]"#).is_err());
    // Missing a field.
    assert!(wire_parse(&frame(
        r#"{"id":"i","pubkey":"p","created_at":0,"kind":1,"tags":[],"content":"c"}"#
    )).is_err());
    // A field with the wrong type.
    assert!(wire_parse(&frame(
        r#"{"id":1,"pubkey":"p","created_at":0,"kind":1,"tags":[],"content":"c","sig":"s"}"#
    )).is_err());
    // An unterminated string.
    assert!(wire_parse(r#"["EVENT","s",{"id":"i]"#).is_err());
    // Trailing text.
    assert!(wire_parse(&(frame(
        r#"{"id":"i","pubkey":"p","created_at":0,"kind":1,"tags":[],"content":"c","sig":"s"}"#
    ) + "x")).is_err());
    // A control character standing raw inside a string.
    assert!(wire_parse(&frame(
        "{\"id\":\"i\x01\",\"pubkey\":\"p\",\"created_at\":0,\"kind\":1,\"tags\":[],\"content\":\"c\",\"sig\":\"s\"}"
    )).is_err());
}

#[test]
fn parse_rejects_numbers_beyond_u64() {
    assert!(wire_parse(&frame(
        r#"{"id":"i","pubkey":"p","created_at":18446744073709551616,"kind":1,"tags":[],"content":"c","sig":"s"}"#
    )).is_err());
    let msg = wire_parse(&frame(
        r#"{"id":"i","pubkey":"p","created_at":18446744073709551615,"kind":1,"tags":[],"content":"c","sig":"s"}"#
    )).unwrap();
    assert_eq!(msg.content.created_at, u64::MAX);
}

#[test]
fn signed_event_round_trips_from_the_wire() {
    let draft = EventNonSigned {
        created_at: 1000,
        kind: 1,
        tags: vec![],
        content: "add alice".to_string(),
    };
    let secret = "0000000000000000000000000000000000000000000000000000000000000001";
    let ev = draft.sign(secret).unwrap();
    let inbound = ev.format().replace("[\"EVENT\",{", "[\"EVENT\",\"s\",{");
    let msg = wire_parse(&inbound).unwrap();
    assert_eq!(msg.content.id, ev.id);
    assert_eq!(msg.content.sig, ev.sig);
    assert!(msg.content.verify());
}
