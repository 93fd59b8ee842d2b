use tostr::simpledb::{self, SimpleDatabase};
use tostr::utils::get_random_keypair;

#[test]
fn from_text_loads_records() {
    let (sec_a, pk_a) = get_random_keypair();
    let (sec_b, _) = get_random_keypair();
    let text = format!("alice:{}\nbob:{}\n", sec_a, sec_b);
    let db = simpledb::from_text(&text).unwrap();
    assert_eq!(db.follows_count(), 2);
    assert!(db.contains_key("alice"));
    assert!(db.contains_key("bob"));
    assert!(!db.contains_key("carol"));
    assert_eq!(db.get("alice"), sec_a);
    assert_eq!(db.get("bob"), sec_b);
    let keys = simpledb::get_user_keypair("alice", &db);
    assert_eq!(keys.0, sec_a);
    assert_eq!(keys.1, pk_a);
}

#[test]
fn from_text_rejects_duplicate_username() {
    let (sec_a, _) = get_random_keypair();
    let (sec_b, _) = get_random_keypair();
    let text = format!("alice:{}\nalice:{}\n", sec_a, sec_b);
    assert!(simpledb::from_text(&text).is_err());
    // The same username twice is fatal even with an identical secret.
    let text = format!("alice:{}\nalice:{}\n", sec_a, sec_a);
    assert!(simpledb::from_text(&text).is_err());
}

#[test]
fn from_text_rejects_invalid_secret() {
    assert!(simpledb::from_text("alice:nothex\n").is_err());
}

#[test]
fn from_text_skips_malformed_lines() {
    let (sec_a, _) = get_random_keypair();
    let text = format!("junk line\n\nalice:{}\n", sec_a);
    let db = simpledb::from_text(&text).unwrap();
    assert_eq!(db.follows_count(), 1);
    assert!(db.contains_key("alice"));
}

#[test]
fn insert_refuses_duplicates_and_bad_secrets() {
    let mut db = SimpleDatabase::new();
    let (sec_a, _) = get_random_keypair();
    let (sec_b, _) = get_random_keypair();
    assert!(db.insert("alice".to_string(), sec_a.clone()).is_ok());
    assert!(db.insert("alice".to_string(), sec_b).is_err());
    assert!(db.insert("bob".to_string(), "nothex".to_string()).is_err());
    assert_eq!(db.follows_count(), 1);
}

#[test]
fn follows_come_back_sorted() {
    let mut db = SimpleDatabase::new();
    let (sec_a, _) = get_random_keypair();
    let (sec_b, _) = get_random_keypair();
    let (sec_c, _) = get_random_keypair();
    db.insert("carol".to_string(), sec_c).unwrap();
    db.insert("alice".to_string(), sec_a).unwrap();
    db.insert("bob".to_string(), sec_b).unwrap();
    let follows = db.get_follows();
    let names: Vec<&str> = follows.iter().map(|e| e.0.as_str()).collect();
    assert_eq!(names, vec!["alice", "bob", "carol"]);
}

#[test]
fn record_line_round_trips_through_from_text() {
    let (sec_a, _) = get_random_keypair();
    let line = simpledb::record_line("alice", &sec_a);
    assert_eq!(line, format!("alice:{}\n", sec_a));
    let db = simpledb::from_text(&line).unwrap();
    assert_eq!(db.get("alice"), sec_a);
}

#[test]
fn stored_secrets_stay_valid() {
    let mut db = SimpleDatabase::new();
    let (sec_a, pk_a) = get_random_keypair();
    db.insert("alice".to_string(), sec_a.clone()).unwrap();
    let keys = simpledb::get_user_keypair("alice", &db);
    assert_eq!(keys.0, sec_a);
    assert_eq!(keys.1, pk_a);
}
