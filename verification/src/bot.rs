//! Command dispatcher and health debouncer: classifies inbound chat
//! text into commands, keeps the at-most-once set of seen event ids,
//! builds each command's reply, and turns the stream of worker outcome
//! signals into rate-limited notifications.

use vstd::prelude::*;

use crate::crypto;
use crate::nostr::{
    spec_reply_tags, get_tags_for_reply, Event, EventNonSigned,
};
use crate::simpledb::SimpleDatabase;
use crate::strkit;
use crate::strkit::spec_u64_dec;
use crate::utils;

verus! {

// ---------------------------------------------------------------------
// Command classification
// ---------------------------------------------------------------------

/// A parsed chat command.
#[derive(Debug)]
pub enum Command {
    /// `add <account>`: follow a feed account.
    Add(String),
    /// `random`: mention one followed account at random.
    Random,
    /// `list`: enumerate all followed accounts.
    List,
    /// `relays`: report the connected relays.
    Relays,
    /// Anything else: no reply is sent.
    Unknown,
}

/// Fixed-priority prefix classification of inbound text.
pub fn parse_command(content: &str) -> (r: Command)
    ensures
        "add "@.is_prefix_of(content@) ==> (r matches Command::Add(u)
            && u@ == content@.skip(4)),
        !"add "@.is_prefix_of(content@) && "random"@.is_prefix_of(content@)
            ==> r matches Command::Random,
        !"add "@.is_prefix_of(content@) && !"random"@.is_prefix_of(content@)
            && "list"@.is_prefix_of(content@) ==> r matches Command::List,
        !"add "@.is_prefix_of(content@) && !"random"@.is_prefix_of(content@)
            && !"list"@.is_prefix_of(content@) && "relays"@.is_prefix_of(content@)
            ==> r matches Command::Relays,
        !"add "@.is_prefix_of(content@) && !"random"@.is_prefix_of(content@)
            && !"list"@.is_prefix_of(content@) && !"relays"@.is_prefix_of(content@)
            ==> r matches Command::Unknown,
{
    if strkit::str_starts_with(content, "add ") {
        let n = content.unicode_len();
        proof {
            reveal_strlit("add ");
        }
        let arg = content.substring_char(4, n);
        Command::Add(arg.to_owned())
    } else if strkit::str_starts_with(content, "random") {
        Command::Random
    } else if strkit::str_starts_with(content, "list") {
        Command::List
    } else if strkit::str_starts_with(content, "relays") {
        Command::Relays
    } else {
        Command::Unknown
    }
}

// ---------------------------------------------------------------------
// At-most-once processing
// ---------------------------------------------------------------------

/// A recorded id is kept through at most this many further first
/// sightings; beyond it the oldest is evicted, which bounds the set
/// while keeping at-most-once dispatch for any plausible relay
/// redelivery window.
pub const SEEN_IDS_CAPACITY: usize = 4096;

/// The ids of events already dispatched, oldest first, so that the
/// same event delivered by several relays is processed once.
pub struct SeenEventIds {
    ids: Vec<String>,
}

impl SeenEventIds {
    /// The set of stored ids.
    pub closed spec fn ids_view(&self) -> Seq<Seq<char>> {
        Seq::new(self.ids@.len(), |i: int| self.ids@[i]@)
    }

    /// Whether this id was seen before.
    pub open spec fn spec_contains(&self, id: Seq<char>) -> bool {
        exists|i: int| 0 <= i < self.ids_view().len() && self.ids_view()[i] == id
    }

    /// An empty set.
    pub fn new() -> (r: SeenEventIds)
        ensures
            r.ids_view().len() == 0,
    {
        SeenEventIds { ids: Vec::new() }
    }

    /// How many ids an insertion of a fresh id evicts from the front:
    /// none below the capacity, else down to one free slot.
    pub open spec fn spec_evicted(&self) -> int {
        if self.ids_view().len() < SEEN_IDS_CAPACITY {
            0
        } else {
            self.ids_view().len() - (SEEN_IDS_CAPACITY - 1)
        }
    }

    /// Records the id; `true` exactly when it is not currently held.
    /// A fresh id goes to the back; when the set is full, the oldest
    /// ids make room. A repeated id changes nothing.
    pub fn insert_if_new(&mut self, id: &str) -> (fresh: bool)
        ensures
            fresh == !old(self).spec_contains(id@),
            !fresh ==> *final(self) == *old(self),
            fresh ==> final(self).ids_view() == old(self).ids_view().skip(
                old(self).spec_evicted()).push(id@),
            final(self).spec_contains(id@),
            fresh ==> final(self).ids_view().len() <= SEEN_IDS_CAPACITY,
            forall|x: Seq<char>| #[trigger] final(self).spec_contains(x)
                ==> x == id@ || old(self).spec_contains(x),
    {
        let n = self.ids.len();
        let mut i: usize = 0;
        while i < n
            invariant
                0 <= i <= n,
                n == self.ids@.len(),
                forall|j: int| 0 <= j < i ==> self.ids_view()[j] != id@,
            decreases n - i,
        {
            if strkit::str_eq(self.ids[i].as_str(), id) {
                proof {
                    assert(self.ids_view()[i as int] == id@);
                }
                return false;
            }
            i += 1;
        }
        let ghost old_view = self.ids_view();
        let ghost mut k: int = 0;
        while self.ids.len() >= SEEN_IDS_CAPACITY
            invariant
                0 <= k <= old_view.len(),
                k == old_view.len() - self.ids_view().len(),
                k == 0 || old_view.len() - (k - 1) >= SEEN_IDS_CAPACITY,
                self.ids_view() =~= old_view.skip(k),
            decreases self.ids.len(),
        {
            let ghost pre = self.ids@;
            self.ids.remove(0);
            proof {
                assert forall|j: int| 0 <= j < self.ids@.len() implies
                    self.ids_view()[j] == old_view.skip(k + 1)[j] by {
                    assert(self.ids@[j] == pre[j + 1]);
                    assert(old_view.skip(k)[j + 1] == old_view.skip(k + 1)[j]);
                }
                assert(self.ids_view() =~= old_view.skip(k + 1));
                k = k + 1;
            }
        }
        proof {
            assert(k == old(self).spec_evicted());
        }
        let ghost mid_view = self.ids_view();
        self.ids.push(id.to_owned());
        proof {
            assert(self.ids_view() =~= mid_view.push(id@));
            assert(self.ids_view()[mid_view.len() as int] == id@);
            assert forall|x: Seq<char>| final(self).spec_contains(x) implies
                x == id@ || old(self).spec_contains(x) by {
                let j = choose|j: int|
                    0 <= j < self.ids_view().len() && self.ids_view()[j] == x;
                if j < mid_view.len() {
                    assert(old_view[j + k] == x);
                }
            }
        }
        true
    }
}

/// At-most-once processing: while an event id stays recorded — which
/// it does through any later recordings inside the set's retention
/// window — a second delivery of the same id is never reported fresh
/// by `insert_if_new`, and the command it carries is not executed
/// again.
pub proof fn lemma_second_delivery_suppressed(
    after_first: SeenEventIds,
    later: SeenEventIds,
    id: Seq<char>,
)
    requires
        after_first.spec_contains(id),
        forall|x: Seq<char>| #[trigger] after_first.spec_contains(x)
            ==> later.spec_contains(x),
    ensures
        later.spec_contains(id),
{
}

// ---------------------------------------------------------------------
// Health debouncer
// ---------------------------------------------------------------------

/// Outcome of one worker poll cycle.
#[derive(Clone, Copy, PartialEq, Eq, Structural, Debug)]
pub enum ConnectionStatus {
    Success,
    Failed,
}

/// A health signal from a worker, with its timestamp in Unix seconds.
#[derive(Clone, Copy, PartialEq, Eq, Structural, Debug)]
pub struct ConnectionMessage {
    pub status: ConnectionStatus,
    pub timestamp: u64,
}

/// Repeated signals of one status inside this window are discarded.
pub const DISCARD_PERIOD_SECS: u64 = 3600;

/// A user-facing connectivity notification.
#[derive(Clone, Copy, PartialEq, Eq, Structural, Debug)]
pub enum Notification {
    Reestablished,
    CantConnect,
    StillCantConnect,
}

/// The text of the "connection is back" notification.
pub open spec fn spec_reestablished_text() -> Seq<char> {
    "Connection to Twitter reestablished! :)"@
}

/// The text of the "connection went down" notification.
pub open spec fn spec_cant_connect_text() -> Seq<char> {
    "I can't connect to Twitter right now :(."@
}

/// The text of the repeated-failure reminder.
pub open spec fn spec_still_cant_connect_text() -> Seq<char> {
    "I'm still unable to connect to Twitter :("@
}

impl Notification {
    /// The user-facing text of this notification.
    pub fn text(&self) -> (r: String)
        ensures
            *self == Notification::Reestablished ==> r@ == spec_reestablished_text(),
            *self == Notification::CantConnect ==> r@ == spec_cant_connect_text(),
            *self == Notification::StillCantConnect
                ==> r@ == spec_still_cant_connect_text(),
    {
        match self {
            Notification::Reestablished => "Connection to Twitter reestablished! :)".to_owned(),
            Notification::CantConnect => "I can't connect to Twitter right now :(.".to_owned(),
            Notification::StillCantConnect => {
                "I'm still unable to connect to Twitter :(".to_owned()
            },
        }
    }
}

/// The state the debouncer starts from: `Success`, dated one discard
/// period before `now`, so the first signal is always evaluated.
pub fn initial_health(now: u64) -> (r: ConnectionMessage)
    requires
        now >= DISCARD_PERIOD_SECS,
    ensures
        r.status == ConnectionStatus::Success,
        r.timestamp == now - DISCARD_PERIOD_SECS,
{
    ConnectionMessage { status: ConnectionStatus::Success, timestamp: now - DISCARD_PERIOD_SECS }
}

/// One debouncer step: decides whether the signal is accepted and which
/// notification, if any, goes out.
///
/// A signal of the other status is always accepted and notifies; a
/// repeated status is accepted only after a full discard period, and
/// only repeated failure re-notifies.
pub fn debounce_step(last: &ConnectionMessage, m: ConnectionMessage) -> (r: (
    ConnectionMessage,
    Option<Notification>,
))
    requires
        m.status == last.status ==> m.timestamp >= last.timestamp,
    ensures
        m.status != last.status ==> r.0 == m && r.1 == Some(
            if m.status == ConnectionStatus::Success {
                Notification::Reestablished
            } else {
                Notification::CantConnect
            },
        ),
        m.status == last.status && m.timestamp - last.timestamp >= DISCARD_PERIOD_SECS
            ==> r.0 == m && r.1 == (if m.status == ConnectionStatus::Failed {
                Some(Notification::StillCantConnect)
            } else {
                Option::<Notification>::None
            }),
        m.status == last.status && m.timestamp - last.timestamp < DISCARD_PERIOD_SECS
            ==> r.0 == *last && r.1.is_none(),
{
    if m.status != last.status {
        let note = match m.status {
            ConnectionStatus::Success => Notification::Reestablished,
            ConnectionStatus::Failed => Notification::CantConnect,
        };
        (m, Some(note))
    } else {
        let elapsed = m.timestamp - last.timestamp;
        if elapsed >= DISCARD_PERIOD_SECS {
            let note = match m.status {
                ConnectionStatus::Success => None,
                ConnectionStatus::Failed => Some(Notification::StillCantConnect),
            };
            (m, note)
        } else {
            (*last, None)
        }
    }
}

/// The draft of a notification event: a plain text note without tags.
pub fn notification_event(note: Notification, created_at: u64) -> (r: EventNonSigned)
    ensures
        r.kind == 1,
        r.created_at == created_at,
        r.tags.deep_view() =~= Seq::<Seq<Seq<char>>>::empty(),
        note == Notification::Reestablished ==> r.content@ == spec_reestablished_text(),
        note == Notification::CantConnect ==> r.content@ == spec_cant_connect_text(),
        note == Notification::StillCantConnect
            ==> r.content@ == spec_still_cant_connect_text(),
{
    EventNonSigned { created_at, kind: 1, tags: Vec::new(), content: note.text() }
}


// ---------------------------------------------------------------------
// Reply building
// ---------------------------------------------------------------------

/// The `p`-tag mentioning one public key.
pub open spec fn spec_p_tag(pubkey: Seq<char>) -> Seq<Seq<char>> {
    seq![seq!['p'], pubkey]
}

/// Appends a `p`-tag for `pubkey` to a tag list.
fn push_p_tag(tags: &mut Vec<Vec<String>>, pubkey: String)
    ensures
        final(tags).deep_view() =~= old(tags).deep_view().push(spec_p_tag(pubkey@)),
{
    let mut tag: Vec<String> = Vec::new();
    tag.push("p".to_owned());
    tag.push(pubkey);
    proof {
        reveal_strlit("p");
        assert("p"@ =~= seq!['p']);
        assert(tag.deep_view() =~= spec_p_tag(pubkey@));
    }
    tags.push(tag);
}

/// Text of the reply to a successful `add`, mentioning the identity
/// that will forward the account.
pub open spec fn spec_forward_text(mention: int) -> Seq<char> {
    "Hi, tweets will be forwarded to nostr by #["@ + spec_u64_dec(mention) + "]."@
}

/// Text of the `random` reply, mentioning the drawn identity.
pub open spec fn spec_random_text(mention: int) -> Seq<char> {
    "Hi, random account to follow: #["@ + spec_u64_dec(mention) + "]"@
}

/// Text of the reply when the follow cap is reached.
pub open spec fn spec_capacity_text(max_follows: int) -> Seq<char> {
    "Hi, sorry, couldn't add new account. I'm already running at my max capacity ("@
        + spec_u64_dec(max_follows) + " users)."@
}

/// Text of the reply when the account does not exist on the feed side.
pub open spec fn spec_not_found_text(username: Seq<char>) -> Seq<char> {
    "Hi, I wasn't able to find "@ + username + " on Twitter :(."@
}

/// Text of the `random` reply when nothing is followed yet.
pub open spec fn spec_no_accounts_text() -> Seq<char> {
    "Hi, there are no accounts. Try to add some using 'add twitter_username' command."@
}

/// Header of the `list` reply.
pub open spec fn spec_list_header(count: int) -> Seq<char> {
    "Hi, I'm following "@ + spec_u64_dec(count) + " accounts:\n"@
}

/// One positional mention line per listed account.
pub open spec fn spec_mention_lines(start: int, count: int) -> Seq<char>
    decreases count,
{
    if count <= 0 {
        Seq::<char>::empty()
    } else {
        "#["@ + spec_u64_dec(start) + "]\n"@ + spec_mention_lines(start + 1, count - 1)
    }
}

proof fn lemma_mention_lines_snoc(start: int, count: int)
    requires
        start >= 0,
        count >= 0,
    ensures
        spec_mention_lines(start, count + 1)
            =~= spec_mention_lines(start, count) + "#["@ + spec_u64_dec(start + count) + "]\n"@,
    decreases count,
{
    if count > 0 {
        lemma_mention_lines_snoc(start + 1, count - 1);
        assert(spec_mention_lines(start, count + 1) =~= "#["@ + spec_u64_dec(start) + "]\n"@
            + spec_mention_lines(start + 1, count));
        assert(spec_mention_lines(start + 1, count) =~= spec_mention_lines(start + 1, count - 1)
            + "#["@ + spec_u64_dec(start + count) + "]\n"@);
        assert(spec_mention_lines(start, count) =~= "#["@ + spec_u64_dec(start) + "]\n"@
            + spec_mention_lines(start + 1, count - 1));
        assert(spec_mention_lines(start, count + 1)
            =~= spec_mention_lines(start, count) + "#["@ + spec_u64_dec(start + count) + "]\n"@);
    } else {
        assert(spec_mention_lines(start + 1, 0).len() == 0);
        assert(spec_mention_lines(start, 0).len() == 0);
        assert(spec_mention_lines(start, 1)
            =~= spec_mention_lines(start, 0) + "#["@ + spec_u64_dec(start) + "]\n"@);
    }
}

/// One `p`-tag per stored record, in store order.
pub open spec fn spec_follow_ptags(entries: Seq<(Seq<char>, Seq<char>)>) -> Seq<Seq<Seq<char>>> {
    Seq::new(entries.len(), |i: int| spec_p_tag(crypto::pubkey_of(entries[i].1).unwrap()))
}

/// The reply to a handled `add`: the reply tags, one appended `p`-tag
/// for the forwarding identity, and a text referencing that tag.
pub fn get_handle_response(event: Event, new_bot_pubkey: &str) -> (r: EventNonSigned)
    ensures
        r.kind == 1,
        r.tags.deep_view() =~= spec_reply_tags(event.tags.deep_view(), event.pubkey@,
            event.id@).push(spec_p_tag(new_bot_pubkey@)),
        r.content@ == spec_forward_text(spec_reply_tags(event.tags.deep_view(), event.pubkey@,
            event.id@).len() as int),
{
    let ghost base = spec_reply_tags(event.tags.deep_view(), event.pubkey@, event.id@);
    let mut all_tags = get_tags_for_reply(event);
    push_p_tag(&mut all_tags, new_bot_pubkey.to_owned());
    proof {
        assert(all_tags.deep_view().len() == all_tags@.len());
        assert(all_tags@.len() == base.len() + 1);
    }
    let last_tag_position = all_tags.len() - 1;
    let mut content = String::new();
    content.append("Hi, tweets will be forwarded to nostr by #[");
    strkit::push_u64_dec(&mut content, last_tag_position as u64);
    content.append("].");
    proof {
        assert(content@ =~= spec_forward_text(base.len() as int));
    }
    EventNonSigned {
        created_at: utils::unix_timestamp(),
        kind: 1,
        tags: all_tags,
        content,
    }
}

/// The plain reply carrying `content` threaded under `event`.
pub fn get_reply(event: Event, content: String) -> (r: EventNonSigned)
    ensures
        r.kind == 1,
        r.tags.deep_view() == spec_reply_tags(event.tags.deep_view(), event.pubkey@, event.id@),
        r.content@ == content@,
{
    let tags = get_tags_for_reply(event);
    EventNonSigned { created_at: utils::unix_timestamp(), kind: 1, tags, content }
}

/// The capacity-exceeded reply.
pub fn reply_capacity(event: Event, max_follows: usize) -> (r: EventNonSigned)
    ensures
        r.kind == 1,
        r.tags.deep_view() == spec_reply_tags(event.tags.deep_view(), event.pubkey@, event.id@),
        r.content@ == spec_capacity_text(max_follows as int),
{
    let mut content = String::new();
    content.append("Hi, sorry, couldn't add new account. I'm already running at my max capacity (");
    strkit::push_u64_dec(&mut content, max_follows as u64);
    content.append(" users).");
    proof {
        assert(content@ =~= spec_capacity_text(max_follows as int));
    }
    get_reply(event, content)
}

/// The account-not-found reply.
pub fn reply_not_found(event: Event, username: &str) -> (r: EventNonSigned)
    ensures
        r.kind == 1,
        r.tags.deep_view() == spec_reply_tags(event.tags.deep_view(), event.pubkey@, event.id@),
        r.content@ == spec_not_found_text(username@),
{
    let mut content = String::new();
    content.append("Hi, I wasn't able to find ");
    content.append(username);
    content.append(" on Twitter :(.");
    proof {
        assert(content@ =~= spec_not_found_text(username@));
    }
    get_reply(event, content)
}

// ---------------------------------------------------------------------
// Command handlers
// ---------------------------------------------------------------------

/// What the dispatcher decided about an `add` argument before the
/// feed-existence check.
pub enum AddDecision {
    /// The account is already followed; reply with its public key.
    AlreadyFollowed(String),
    /// The follow cap would be exceeded; reply and do nothing.
    AtCapacity,
    /// Free slot: the normalized username awaits the existence check.
    NeedCheck(String),
}

/// Classifies an `add` argument against the store and the follow cap.
pub fn add_precheck(db: &SimpleDatabase, raw_arg: &str, max_follows: usize) -> (r: AddDecision)
    requires
        db.wf(),
    ensures
        db.spec_contains(strkit::spec_normalize(raw_arg@)) ==> r is AlreadyFollowed
            && r->AlreadyFollowed_0@ == crypto::pubkey_of(
            db.spec_secret_of(strkit::spec_normalize(raw_arg@))).unwrap(),
        !db.spec_contains(strkit::spec_normalize(raw_arg@))
            && db.entries().len() + 1 > max_follows ==> r is AtCapacity,
        !db.spec_contains(strkit::spec_normalize(raw_arg@))
            && db.entries().len() + 1 <= max_follows ==> r is NeedCheck
            && r->NeedCheck_0@ == strkit::spec_normalize(raw_arg@),
{
    let username = strkit::normalize_username(raw_arg);
    if db.contains_key(username.as_str()) {
        let keys = crate::simpledb::get_user_keypair(username.as_str(), db);
        return AddDecision::AlreadyFollowed(keys.1);
    }
    if db.follows_count() >= max_follows {
        return AddDecision::AtCapacity;
    }
    AddDecision::NeedCheck(username)
}

/// Commits an `add` after the existence check: when the account exists,
/// generates a fresh identity, persists the record, and hands back
/// `(secret, pubkey)` for the worker to be spawned; when it does not,
/// leaves the store untouched.
pub fn add_commit(db: &mut SimpleDatabase, username: String, account_exists: bool) -> (r: Option<
    (String, String),
>)
    requires
        old(db).wf(),
        !old(db).spec_contains(username@),
    ensures
        final(db).wf(),
        !account_exists ==> r.is_none() && *final(db) == *old(db),
        account_exists ==> r.is_some() && {
            let sec = r.unwrap().0@;
            let pk = r.unwrap().1@;
            &&& crypto::pubkey_of(sec) == Some(pk)
            &&& final(db).spec_contains(username@)
            &&& final(db).spec_secret_of(username@) == sec
            &&& final(db).entries().len() == old(db).entries().len() + 1
            &&& forall|n: Seq<char>| #[trigger] old(db).spec_contains(n)
                ==> final(db).spec_contains(n)
                    && final(db).spec_secret_of(n) == old(db).spec_secret_of(n)
            &&& forall|n: Seq<char>| #[trigger] final(db).spec_contains(n)
                ==> n == username@ || old(db).spec_contains(n)
        },
{
    if !account_exists {
        return None;
    }
    let keys = utils::get_random_keypair();
    let secret = keys.0;
    let pubkey = keys.1;
    let stored = secret.clone();
    match db.insert(username, stored) {
        Ok(()) => {},
        Err(_) => {
            proof {
                assert(false);
            }
            unreached()
        },
    }
    Some((secret, pubkey))
}

/// The `random` command: with no follows, the fixed empty-state text;
/// otherwise a reply mentioning one stored account.
pub fn handle_random(event: Event, db: &SimpleDatabase) -> (r: EventNonSigned)
    requires
        db.wf(),
    ensures
        r.kind == 1,
        db.entries().len() == 0 ==> r.tags.deep_view() == spec_reply_tags(
            event.tags.deep_view(), event.pubkey@, event.id@)
            && r.content@ == spec_no_accounts_text(),
        db.entries().len() > 0 ==> exists|i: int|
            0 <= i < db.entries().len()
                && r.tags.deep_view() =~= spec_reply_tags(event.tags.deep_view(), event.pubkey@,
                    event.id@).push(spec_p_tag(
                    crypto::pubkey_of(db.entries()[i].1).unwrap()))
                && r.content@ == spec_random_text(spec_reply_tags(event.tags.deep_view(),
                    event.pubkey@, event.id@).len() as int),
{
    let n = db.follows_count();
    if n == 0 {
        return get_reply(
            event,
            "Hi, there are no accounts. Try to add some using 'add twitter_username' command.".to_owned(),
        );
    }
    let follows = db.get_follows();
    let index = crypto::random_below(n);
    let pubkey = match crypto::derive_pubkey(follows[index].1.as_str()) {
        Some(p) => p,
        None => {
            proof {
                assert(false);
            }
            unreached()
        },
    };
    let ghost base = spec_reply_tags(event.tags.deep_view(), event.pubkey@, event.id@);
    let mut tags = get_tags_for_reply(event);
    push_p_tag(&mut tags, pubkey);
    let mention_index = tags.len() - 1;
    let mut content = String::new();
    content.append("Hi, random account to follow: #[");
    strkit::push_u64_dec(&mut content, mention_index as u64);
    content.append("]");
    proof {
        assert(content@ =~= spec_random_text(base.len() as int));
        assert(crypto::pubkey_of(db.entries()[index as int].1) == Some(pubkey@));
    }
    EventNonSigned { created_at: utils::unix_timestamp(), kind: 1, tags, content }
}

/// The `list` command: every followed account, ascending by username,
/// one positional mention and one appended `p`-tag per record.
pub fn handle_list(event: Event, db: &SimpleDatabase) -> (r: EventNonSigned)
    requires
        db.wf(),
    ensures
        r.kind == 1,
        r.tags.deep_view() =~= spec_reply_tags(event.tags.deep_view(), event.pubkey@, event.id@)
            + spec_follow_ptags(db.entries()),
        r.content@ == spec_list_header(db.entries().len() as int) + spec_mention_lines(
            spec_reply_tags(event.tags.deep_view(), event.pubkey@, event.id@).len() as int,
            db.entries().len() as int,
        ),
{
    let ghost base = spec_reply_tags(event.tags.deep_view(), event.pubkey@, event.id@);
    let follows = db.get_follows();
    let mut tags = get_tags_for_reply(event);
    let ghost orig = tags.deep_view().len() as int;
    let n = follows.len();
    let mut text = String::new();
    text.append("Hi, I'm following ");
    strkit::push_u64_dec(&mut text, n as u64);
    text.append(" accounts:\n");
    proof {
        assert(text@ =~= spec_list_header(db.entries().len() as int));
    }
    let ghost header = text@;
    let mut i: usize = 0;
    while i < n
        invariant
            0 <= i <= n,
            db.wf(),
            n == follows@.len(),
            n == db.entries().len(),
            forall|j: int| 0 <= j < n
                ==> (#[trigger] follows@[j]).0@ == db.entries()[j].0
                    && follows@[j].1@ == db.entries()[j].1,
            tags.deep_view().len() == orig + i,
            orig == base.len(),
            tags.deep_view() =~= base + spec_follow_ptags(db.entries().take(i as int)),
            text@ =~= header + spec_mention_lines(orig, i as int),
        decreases n - i,
    {
        let pubkey = match crypto::derive_pubkey(follows[i].1.as_str()) {
            Some(p) => p,
            None => {
                proof {
                    assert(false);
                }
                unreached()
            },
        };
        let ghost tags_before = tags.deep_view();
        push_p_tag(&mut tags, pubkey);
        let mention = tags.len() - 1;
        text.append("#[");
        strkit::push_u64_dec(&mut text, mention as u64);
        text.append("]\n");
        proof {
            lemma_mention_lines_snoc(orig, i as int);
            assert(text@ =~= header + spec_mention_lines(orig, i + 1));
            assert(db.entries().take(i + 1).drop_last() =~= db.entries().take(i as int));
            assert(spec_follow_ptags(db.entries().take(i + 1))
                =~= spec_follow_ptags(db.entries().take(i as int)).push(
                    spec_p_tag(crypto::pubkey_of(db.entries()[i as int].1).unwrap())));
            assert(tags.deep_view() =~= base + spec_follow_ptags(db.entries().take(i + 1)));
        }
        i += 1;
    }
    proof {
        assert(db.entries().take(n as int) =~= db.entries());
    }
    EventNonSigned { created_at: utils::unix_timestamp(), kind: 1, tags, content: text }
}

/// One relay address per line.
pub open spec fn spec_relay_lines(relays: Seq<Seq<char>>) -> Seq<char>
    decreases relays.len(),
{
    if relays.len() == 0 {
        Seq::<char>::empty()
    } else {
        relays[0] + seq!['\n'] + spec_relay_lines(relays.drop_first())
    }
}

/// The `relays` command: lists the addresses found reachable.
pub fn handle_relays(event: Event, connected_relays: &Vec<String>) -> (r: EventNonSigned)
    ensures
        r.kind == 1,
        r.tags.deep_view() == spec_reply_tags(event.tags.deep_view(), event.pubkey@, event.id@),
        r.content@ == "Right now I'm connected to these relays:\n"@ + spec_relay_lines(
            connected_relays.deep_view()),
{
    let ghost dv = connected_relays.deep_view();
    let mut text = String::new();
    text.append("Right now I'm connected to these relays:\n");
    let ghost header = text@;
    let n = connected_relays.len();
    let mut i: usize = 0;
    proof {
        assert(dv.skip(0) =~= dv);
    }
    while i < n
        invariant
            0 <= i <= n,
            n == dv.len(),
            dv == connected_relays.deep_view(),
            n == connected_relays@.len(),
            text@ + spec_relay_lines(dv.skip(i as int)) =~= header + spec_relay_lines(dv),
        decreases n - i,
    {
        proof {
            assert(dv.skip(i as int)[0] == dv[i as int]);
            assert(dv[i as int] == connected_relays@[i as int]@);
            assert(dv.skip(i as int).drop_first() =~= dv.skip(i + 1));
        }
        text.append(connected_relays[i].as_str());
        strkit::push_char(&mut text, '\n');
        i += 1;
    }
    proof {
        assert(dv.skip(n as int).len() == 0);
        assert(text@ =~= header + spec_relay_lines(dv));
    }
    get_reply(event, text)
}

} // verus!
