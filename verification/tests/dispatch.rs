use tostr::bot::{self, AddDecision, Command};
use tostr::nostr::Event;
use tostr::simpledb::SimpleDatabase;

fn event_without_tags() -> Event {
    Event {
        id: "id1".to_string(),
        pubkey: "pk1".to_string(),
        created_at: 1,
        kind: 1,
        tags: vec![],
        content: String::new(),
        sig: String::new(),
    }
}

#[test]
fn command_classification() {
    assert!(matches!(bot::parse_command("add alice"), Command::Add(u) if u == "alice"));
    assert!(matches!(bot::parse_command("random"), Command::Random));
    assert!(matches!(bot::parse_command("random stuff"), Command::Random));
    assert!(matches!(bot::parse_command("list"), Command::List));
    assert!(matches!(bot::parse_command("relays"), Command::Relays));
    assert!(matches!(bot::parse_command("help"), Command::Unknown));
    assert!(matches!(bot::parse_command(""), Command::Unknown));
    // `add ` wins over the other prefixes.
    assert!(matches!(bot::parse_command("add random"), Command::Add(u) if u == "random"));
}

#[test]
fn username_normalization() {
    assert_eq!(tostr::strkit::normalize_username("@Alice"), "alice");
    assert_eq!(tostr::strkit::normalize_username("@@UPPER"), "upper");
    assert_eq!(tostr::strkit::normalize_username("Bob@Home"), "bob@home");
    assert_eq!(tostr::strkit::normalize_username("carol"), "carol");
}

#[test]
fn seen_ids_deduplicate() {
    let mut seen = bot::SeenEventIds::new();
    assert!(seen.insert_if_new("e1"));
    assert!(!seen.insert_if_new("e1"));
    assert!(seen.insert_if_new("e2"));
    assert!(!seen.insert_if_new("e1"));
}

#[test]
fn seen_ids_evict_oldest_beyond_capacity() {
    let mut seen = bot::SeenEventIds::new();
    assert!(seen.insert_if_new("first"));
    // Fill the set to its capacity; "first" is the oldest entry.
    for i in 1..bot::SEEN_IDS_CAPACITY {
        assert!(seen.insert_if_new(&format!("e{}", i)));
    }
    assert!(!seen.insert_if_new("first"));
    // One more fresh id pushes "first" out; it then reads as fresh again.
    assert!(seen.insert_if_new("overflow"));
    assert!(seen.insert_if_new("first"));
    // The newest entries are still held.
    assert!(!seen.insert_if_new("overflow"));
}

#[test]
fn add_respects_capacity() {
    let mut db = SimpleDatabase::new();
    // Capacity 1, nothing followed: alice goes through.
    match bot::add_precheck(&db, "alice", 1) {
        AddDecision::NeedCheck(u) => {
            assert_eq!(u, "alice");
            let added = bot::add_commit(&mut db, u, true);
            assert!(added.is_some());
        },
        _ => panic!("expected a free slot for alice"),
    }
    assert_eq!(db.follows_count(), 1);
    // Second add under the same cap: refused, nothing persisted.
    assert!(matches!(bot::add_precheck(&db, "bob", 1), AddDecision::AtCapacity));
    assert_eq!(db.follows_count(), 1);
}

#[test]
fn add_twice_is_idempotent() {
    let mut db = SimpleDatabase::new();
    let (_, pubkey) = match bot::add_precheck(&db, "alice", 10) {
        AddDecision::NeedCheck(u) => bot::add_commit(&mut db, u, true).unwrap(),
        _ => panic!("expected a free slot"),
    };
    assert_eq!(db.follows_count(), 1);
    match bot::add_precheck(&db, "alice", 10) {
        AddDecision::AlreadyFollowed(pk) => assert_eq!(pk, pubkey),
        _ => panic!("expected alice to be known already"),
    }
    assert_eq!(db.follows_count(), 1);
}

#[test]
fn add_unknown_account_changes_nothing() {
    let mut db = SimpleDatabase::new();
    match bot::add_precheck(&db, "ghost", 10) {
        AddDecision::NeedCheck(u) => {
            assert!(bot::add_commit(&mut db, u, false).is_none());
        },
        _ => panic!("expected a free slot"),
    }
    assert_eq!(db.follows_count(), 0);
}

#[test]
fn list_enumerates_sorted_with_p_tags() {
    let mut db = SimpleDatabase::new();
    // Insert out of order; the store keeps usernames sorted.
    let bob = match bot::add_precheck(&db, "bob", 10) {
        AddDecision::NeedCheck(u) => bot::add_commit(&mut db, u, true).unwrap(),
        _ => panic!(),
    };
    let alice = match bot::add_precheck(&db, "alice", 10) {
        AddDecision::NeedCheck(u) => bot::add_commit(&mut db, u, true).unwrap(),
        _ => panic!(),
    };
    let follows = db.get_follows();
    assert_eq!(follows[0].0, "alice");
    assert_eq!(follows[1].0, "bob");

    let reply = bot::handle_list(event_without_tags(), &db);
    assert_eq!(reply.kind, 1);
    assert_eq!(reply.content, "Hi, I'm following 2 accounts:\n#[2]\n#[3]\n");
    assert_eq!(reply.tags.len(), 4);
    assert_eq!(reply.tags[0], vec!["p".to_string(), "pk1".to_string()]);
    assert_eq!(reply.tags[1], vec!["e".to_string(), "id1".to_string()]);
    assert_eq!(reply.tags[2], vec!["p".to_string(), alice.1.clone()]);
    assert_eq!(reply.tags[3], vec!["p".to_string(), bob.1.clone()]);
}

#[test]
fn random_with_no_follows_apologizes() {
    let db = SimpleDatabase::new();
    let reply = bot::handle_random(event_without_tags(), &db);
    assert_eq!(reply.kind, 1);
    assert_eq!(
        reply.content,
        "Hi, there are no accounts. Try to add some using 'add twitter_username' command."
    );
    assert_eq!(reply.tags.len(), 2);
}

#[test]
fn random_with_follows_mentions_one() {
    let mut db = SimpleDatabase::new();
    let alice = match bot::add_precheck(&db, "alice", 10) {
        AddDecision::NeedCheck(u) => bot::add_commit(&mut db, u, true).unwrap(),
        _ => panic!(),
    };
    let reply = bot::handle_random(event_without_tags(), &db);
    assert_eq!(reply.content, "Hi, random account to follow: #[2]");
    assert_eq!(reply.tags.len(), 3);
    assert_eq!(reply.tags[2], vec!["p".to_string(), alice.1]);
}

#[test]
fn handle_response_mentions_new_identity() {
    let reply = bot::get_handle_response(event_without_tags(), "newpk");
    assert_eq!(reply.kind, 1);
    assert_eq!(reply.content, "Hi, tweets will be forwarded to nostr by #[2].");
    assert_eq!(reply.tags.len(), 3);
    assert_eq!(reply.tags[2], vec!["p".to_string(), "newpk".to_string()]);
}

#[test]
fn capacity_and_not_found_replies() {
    let reply = bot::reply_capacity(event_without_tags(), 7);
    assert_eq!(
        reply.content,
        "Hi, sorry, couldn't add new account. I'm already running at my max capacity (7 users)."
    );
    let reply = bot::reply_not_found(event_without_tags(), "ghost");
    assert_eq!(reply.content, "Hi, I wasn't able to find ghost on Twitter :(.");
}

#[test]
fn relays_reply_lists_addresses() {
    let relays = vec!["wss://a.example".to_string(), "wss://b.example".to_string()];
    let reply = bot::handle_relays(event_without_tags(), &relays);
    assert_eq!(
        reply.content,
        "Right now I'm connected to these relays:\nwss://a.example\nwss://b.example\n"
    );
    assert_eq!(reply.tags.len(), 2);
}
