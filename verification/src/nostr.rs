//! Protocol engine: canonical signing payload, event construction and
//! signing, wire formatting, and the reply-threading tag algorithm.
//!
//! Strings embedded in JSON output are escaped by the same rules both in
//! the signing payload and on the wire, so the two never diverge.

use vstd::prelude::*;

use crate::crypto;
use crate::keys::spec_hex_digit;
use crate::strkit::{push_char, push_u64_dec, spec_u64_dec};

verus! {

/// JSON escaping of one character: quote, backslash and control
/// characters are escaped, everything else stands as it is.
pub open spec fn spec_escape_char(c: char) -> Seq<char> {
    if c == '"' {
        seq!['\\', '"']
    } else if c == '\\' {
        seq!['\\', '\\']
    } else if c == '\n' {
        seq!['\\', 'n']
    } else if c == '\r' {
        seq!['\\', 'r']
    } else if c == '\t' {
        seq!['\\', 't']
    } else if c as u32 == 8 {
        seq!['\\', 'b']
    } else if c as u32 == 12 {
        seq!['\\', 'f']
    } else if (c as u32) < 32 {
        seq!['\\', 'u', '0', '0',
            spec_hex_digit((c as u32 / 16) as u8),
            spec_hex_digit((c as u32 % 16) as u8)]
    } else {
        seq![c]
    }
}

/// JSON escaping of a whole string.
pub open spec fn spec_escape(s: Seq<char>) -> Seq<char>
    decreases s.len(),
{
    if s.len() == 0 {
        Seq::<char>::empty()
    } else {
        spec_escape_char(s[0]) + spec_escape(s.drop_first())
    }
}

/// A JSON string literal: escaped content between double quotes.
pub open spec fn spec_quoted(s: Seq<char>) -> Seq<char> {
    seq!['"'] + spec_escape(s) + seq!['"']
}

/// The elements of a tag after the first, each quoted and preceded by a
/// comma, closed with `]`.
pub open spec fn spec_tag_rest(t: Seq<Seq<char>>) -> Seq<char>
    decreases t.len(),
{
    if t.len() == 0 {
        seq![']']
    } else {
        seq![','] + spec_quoted(t[0]) + spec_tag_rest(t.drop_first())
    }
}

/// One tag as a JSON array of strings.
pub open spec fn spec_tag_json(t: Seq<Seq<char>>) -> Seq<char> {
    if t.len() == 0 {
        seq!['[', ']']
    } else {
        seq!['['] + spec_quoted(t[0]) + spec_tag_rest(t.drop_first())
    }
}

/// The tags after the first, each as a JSON array preceded by a comma,
/// closed with `]`.
pub open spec fn spec_tags_rest(ts: Seq<Seq<Seq<char>>>) -> Seq<char>
    decreases ts.len(),
{
    if ts.len() == 0 {
        seq![']']
    } else {
        seq![','] + spec_tag_json(ts[0]) + spec_tags_rest(ts.drop_first())
    }
}

/// The tag list as a JSON array of arrays of strings.
pub open spec fn spec_tags_json(ts: Seq<Seq<Seq<char>>>) -> Seq<char> {
    if ts.len() == 0 {
        seq!['[', ']']
    } else {
        seq!['['] + spec_tag_json(ts[0]) + spec_tags_rest(ts.drop_first())
    }
}

/// The canonical signing payload: a six-element JSON array
/// `[0,<pubkey>,<created_at>,<kind>,<tags>,<content>]` without spaces.
pub open spec fn spec_signing_payload(
    pubkey: Seq<char>,
    created_at: u64,
    kind: u64,
    tags: Seq<Seq<Seq<char>>>,
    content: Seq<char>,
) -> Seq<char> {
    seq!['[', '0', ','] + spec_quoted(pubkey)
        + seq![','] + spec_u64_dec(created_at as int)
        + seq![','] + spec_u64_dec(kind as int)
        + seq![','] + spec_tags_json(tags)
        + seq![','] + spec_quoted(content)
        + seq![']']
}

/// Appends the JSON escaping of `s`.
fn push_escaped(out: &mut String, s: &str)
    ensures
        final(out)@ == old(out)@ + spec_escape(s@),
{
    let n = s.unicode_len();
    let mut i: usize = 0;
    proof {
        assert(s@.skip(0) =~= s@);
    }
    while i < n
        invariant
            0 <= i <= n,
            n == s@.len(),
            out@ + spec_escape(s@.skip(i as int)) =~= old(out)@ + spec_escape(s@),
        decreases n - i,
    {
        let c = s.get_char(i);
        proof {
            assert(s@.skip(i as int)[0] == c);
            assert(s@.skip(i as int).drop_first() =~= s@.skip(i + 1));
        }
        let ghost out_before = out@;
        if c == '"' {
            push_char(out, '\\');
            push_char(out, '"');
        } else if c == '\\' {
            push_char(out, '\\');
            push_char(out, '\\');
        } else if c == '\n' {
            push_char(out, '\\');
            push_char(out, 'n');
        } else if c == '\r' {
            push_char(out, '\\');
            push_char(out, 'r');
        } else if c == '\t' {
            push_char(out, '\\');
            push_char(out, 't');
        } else if c as u32 == 8 {
            push_char(out, '\\');
            push_char(out, 'b');
        } else if c as u32 == 12 {
            push_char(out, '\\');
            push_char(out, 'f');
        } else if (c as u32) < 32 {
            push_char(out, '\\');
            push_char(out, 'u');
            push_char(out, '0');
            push_char(out, '0');
            push_char(out, crate::keys::get_hex_digit((c as u32 / 16) as u8));
            push_char(out, crate::keys::get_hex_digit((c as u32 % 16) as u8));
        } else {
            push_char(out, c);
        }
        proof {
            assert(out@ =~= out_before + spec_escape_char(c));
        }
        i += 1;
    }
    proof {
        assert(s@.skip(n as int).len() == 0);
        assert(out@ =~= old(out)@ + spec_escape(s@));
    }
}

/// Appends `s` as a JSON string literal.
fn push_quoted(out: &mut String, s: &str)
    ensures
        final(out)@ == old(out)@ + spec_quoted(s@),
{
    push_char(out, '"');
    push_escaped(out, s);
    push_char(out, '"');
    proof {
        assert(out@ =~= old(out)@ + spec_quoted(s@));
    }
}

/// Appends one tag as a JSON array of strings.
fn push_tag_json(out: &mut String, tag: &Vec<String>)
    ensures
        final(out)@ == old(out)@ + spec_tag_json(tag.deep_view()),
{
    push_char(out, '[');
    if tag.len() == 0 {
        push_char(out, ']');
        proof {
            assert(out@ =~= old(out)@ + spec_tag_json(tag.deep_view()));
        }
        return;
    }
    push_quoted(out, tag[0].as_str());
    let ghost dv = tag.deep_view();
    let n = tag.len();
    let mut i: usize = 1;
    proof {
        assert(dv[0] == tag@[0]@);
        assert(dv.skip(1).skip(0) =~= dv.skip(1));
        assert(out@ + spec_tag_rest(dv.skip(1)) =~=
            old(out)@ + spec_tag_json(dv));
    }
    while i < n
        invariant
            1 <= i <= n,
            n == dv.len(),
            dv == tag.deep_view(),
            n == tag@.len(),
            out@ + spec_tag_rest(dv.skip(i as int)) =~= old(out)@ + spec_tag_json(dv),
        decreases n - i,
    {
        proof {
            assert(dv.skip(i as int)[0] == dv[i as int]);
            assert(dv[i as int] == tag@[i as int]@);
            assert(dv.skip(i as int).drop_first() =~= dv.skip(i + 1));
        }
        push_char(out, ',');
        push_quoted(out, tag[i].as_str());
        i += 1;
    }
    push_char(out, ']');
    proof {
        assert(dv.skip(n as int).len() == 0);
        assert(out@ =~= old(out)@ + spec_tag_json(dv));
    }
}

/// Appends the whole tag list as a JSON array of arrays.
pub fn push_tags_json(out: &mut String, tags: &Vec<Vec<String>>)
    ensures
        final(out)@ == old(out)@ + spec_tags_json(tags.deep_view()),
{
    push_char(out, '[');
    if tags.len() == 0 {
        push_char(out, ']');
        proof {
            assert(out@ =~= old(out)@ + spec_tags_json(tags.deep_view()));
        }
        return;
    }
    push_tag_json(out, &tags[0]);
    let ghost dv = tags.deep_view();
    let n = tags.len();
    let mut i: usize = 1;
    proof {
        assert(dv[0] == tags@[0].deep_view());
        assert(dv.skip(1).skip(0) =~= dv.skip(1));
        assert(out@ + spec_tags_rest(dv.skip(1)) =~= old(out)@ + spec_tags_json(dv));
    }
    while i < n
        invariant
            1 <= i <= n,
            n == dv.len(),
            dv == tags.deep_view(),
            n == tags@.len(),
            out@ + spec_tags_rest(dv.skip(i as int)) =~= old(out)@ + spec_tags_json(dv),
        decreases n - i,
    {
        proof {
            assert(dv.skip(i as int)[0] == dv[i as int]);
            assert(dv[i as int] == tags@[i as int].deep_view());
            assert(dv.skip(i as int).drop_first() =~= dv.skip(i + 1));
        }
        push_char(out, ',');
        push_tag_json(out, &tags[i]);
        i += 1;
    }
    push_char(out, ']');
    proof {
        assert(dv.skip(n as int).len() == 0);
        assert(out@ =~= old(out)@ + spec_tags_json(dv));
    }
}

/// The canonical signing payload as a string.
pub fn signing_payload(
    pubkey: &str,
    created_at: u64,
    kind: u64,
    tags: &Vec<Vec<String>>,
    content: &str,
) -> (r: String)
    ensures
        r@ == spec_signing_payload(pubkey@, created_at, kind, tags.deep_view(), content@),
{
    let mut out = String::new();
    push_char(&mut out, '[');
    push_char(&mut out, '0');
    push_char(&mut out, ',');
    push_quoted(&mut out, pubkey);
    push_char(&mut out, ',');
    push_u64_dec(&mut out, created_at);
    push_char(&mut out, ',');
    push_u64_dec(&mut out, kind);
    push_char(&mut out, ',');
    push_tags_json(&mut out, tags);
    push_char(&mut out, ',');
    push_quoted(&mut out, content);
    push_char(&mut out, ']');
    proof {
        assert(out@ =~= spec_signing_payload(pubkey@, created_at, kind, tags.deep_view(),
            content@));
    }
    out
}

/// An unsigned event: everything but the identity-derived fields.
pub struct EventNonSigned {
    pub created_at: u64,
    pub kind: u64,
    pub tags: Vec<Vec<String>>,
    pub content: String,
}

/// A signed, content-addressed event.
#[derive(Clone)]
pub struct Event {
    pub id: String,
    pub pubkey: String,
    pub created_at: u64,
    pub kind: u64,
    pub tags: Vec<Vec<String>>,
    pub content: String,
    pub sig: String,
}

/// An inbound wire envelope: message type, subscription id and the
/// carried event.
pub struct Message {
    pub msg_type: String,
    pub subscription_id: String,
    pub content: Event,
}

/// The id of the event built from these fields under this public key.
pub open spec fn spec_event_id(
    pubkey: Seq<char>,
    created_at: u64,
    kind: u64,
    tags: Seq<Seq<Seq<char>>>,
    content: Seq<char>,
) -> Seq<char> {
    crypto::event_id_of(spec_signing_payload(pubkey, created_at, kind, tags, content))
}

/// What `EventNonSigned::sign` promises of a signed event: every field
/// is the stated function of the draft and the secret key, so signing is
/// deterministic.
pub open spec fn spec_signed_event(
    ev: Event,
    created_at: u64,
    kind: u64,
    tags: Seq<Seq<Seq<char>>>,
    content: Seq<char>,
    secret: Seq<char>,
) -> bool {
    &&& crypto::pubkey_of(secret).is_some()
    &&& ev.pubkey@ == crypto::pubkey_of(secret).unwrap()
    &&& ev.created_at == created_at
    &&& ev.kind == kind
    &&& ev.tags.deep_view() == tags
    &&& ev.content@ == content
    &&& ev.id@ == spec_event_id(ev.pubkey@, created_at, kind, tags, content)
    &&& ev.sig@ == crypto::sig_of(secret, ev.id@)
    &&& crypto::schnorr_verifies(ev.sig@, ev.id@, ev.pubkey@)
}

impl EventNonSigned {
    /// Signs the draft with the secret key given in hex; `None` exactly
    /// when the string is not a valid secret key.
    pub fn sign(self, secret: &str) -> (r: Option<Event>)
        ensures
            r.is_some() == crypto::pubkey_of(secret@).is_some(),
            r.is_some() ==> spec_signed_event(
                r.unwrap(),
                self.created_at,
                self.kind,
                self.tags.deep_view(),
                self.content@,
                secret@,
            ),
    {
        let pubkey = match crypto::derive_pubkey(secret) {
            Some(p) => p,
            None => {
                return None;
            },
        };
        let payload = signing_payload(
            pubkey.as_str(),
            self.created_at,
            self.kind,
            &self.tags,
            self.content.as_str(),
        );
        let id = crypto::compute_event_id(payload.as_str());
        let sig = crypto::sign_id(secret, id.as_str());
        Some(Event {
            id,
            pubkey,
            created_at: self.created_at,
            kind: self.kind,
            tags: self.tags,
            content: self.content,
            sig,
        })
    }
}

/// Signing is pure: two signed events from the same draft fields and the
/// same secret key carry the same id and the same signature.
pub proof fn lemma_sign_deterministic(
    a: Event,
    b: Event,
    created_at: u64,
    kind: u64,
    tags: Seq<Seq<Seq<char>>>,
    content: Seq<char>,
    secret: Seq<char>,
)
    requires
        spec_signed_event(a, created_at, kind, tags, content, secret),
        spec_signed_event(b, created_at, kind, tags, content, secret),
    ensures
        a.id@ == b.id@,
        a.sig@ == b.sig@,
        a.pubkey@ == b.pubkey@,
{
}

/// Every signed event's signature verifies against its id and its public
/// key under the standard verification procedure.
pub proof fn lemma_signed_event_verifies(
    ev: Event,
    created_at: u64,
    kind: u64,
    tags: Seq<Seq<Seq<char>>>,
    content: Seq<char>,
    secret: Seq<char>,
)
    requires
        spec_signed_event(ev, created_at, kind, tags, content, secret),
    ensures
        crypto::schnorr_verifies(ev.sig@, ev.id@, ev.pubkey@),
{
}

/// The JSON object carrying an event's fields, as emitted.
pub open spec fn spec_event_obj(ev: Event) -> Seq<char> {
    "{\"id\":"@ + spec_quoted(ev.id@)
        + ",\"pubkey\":"@ + spec_quoted(ev.pubkey@)
        + ",\"created_at\":"@ + spec_u64_dec(ev.created_at as int)
        + ",\"kind\":"@ + spec_u64_dec(ev.kind as int)
        + ",\"tags\":"@ + spec_tags_json(ev.tags.deep_view())
        + ",\"content\":"@ + spec_quoted(ev.content@)
        + ",\"sig\":"@ + spec_quoted(ev.sig@)
        + "}"@
}

/// The outbound wire envelope of a signed event.
pub open spec fn spec_wire_event(ev: Event) -> Seq<char> {
    "[\"EVENT\","@ + spec_event_obj(ev) + "]"@
}

impl Event {
    /// Builds and signs an event in one step; `None` exactly when the
    /// secret key string is invalid.
    pub fn new(
        secret: &str,
        content: String,
        created_at: u64,
        kind: u64,
        tags: Vec<Vec<String>>,
    ) -> (r: Option<Event>)
        ensures
            r.is_some() == crypto::pubkey_of(secret@).is_some(),
            r.is_some() ==> spec_signed_event(
                r.unwrap(),
                created_at,
                kind,
                tags.deep_view(),
                content@,
                secret@,
            ),
    {
        EventNonSigned { created_at, kind, tags, content }.sign(secret)
    }

    /// Whether this event's signature verifies against its id and its
    /// public key under the standard verification procedure.
    pub fn verify(&self) -> (r: bool)
        ensures
            r == crypto::schnorr_verifies(self.sig@, self.id@, self.pubkey@),
    {
        crypto::verify_sig(self.sig.as_str(), self.id.as_str(), self.pubkey.as_str())
    }

    /// The tag list of this event as a JSON array of arrays.
    pub fn format_tags(tags: &Vec<Vec<String>>) -> (r: String)
        ensures
            r@ == spec_tags_json(tags.deep_view()),
    {
        let mut out = String::new();
        push_tags_json(&mut out, tags);
        proof {
            assert(out@ =~= spec_tags_json(tags.deep_view()));
        }
        out
    }

    /// The `["EVENT",{...}]` wire frame for this event.
    #[verifier::rlimit(60)]
    pub fn format(&self) -> (r: String)
        ensures
            r@ == spec_wire_event(*self),
    {
        let mut out = String::new();
        out.append("[\"EVENT\",");
        out.append("{\"id\":");
        push_quoted(&mut out, self.id.as_str());
        out.append(",\"pubkey\":");
        push_quoted(&mut out, self.pubkey.as_str());
        out.append(",\"created_at\":");
        push_u64_dec(&mut out, self.created_at);
        out.append(",\"kind\":");
        push_u64_dec(&mut out, self.kind);
        out.append(",\"tags\":");
        push_tags_json(&mut out, &self.tags);
        out.append(",\"content\":");
        push_quoted(&mut out, self.content.as_str());
        out.append(",\"sig\":");
        push_quoted(&mut out, self.sig.as_str());
        out.append("}");
        proof {
            assert(out@ =~= "[\"EVENT\","@ + spec_event_obj(*self));
        }
        out.append("]");
        proof {
            assert(out@ =~= spec_wire_event(*self));
        }
        out
    }
}

/// Whether a tag's type code is `e`.
pub open spec fn spec_is_e_tag(t: Seq<Seq<char>>) -> bool {
    t.len() > 0 && t[0] == seq!['e']
}

/// Whether a tag's type code is `p`.
pub open spec fn spec_is_p_tag(t: Seq<Seq<char>>) -> bool {
    t.len() > 0 && t[0] == seq!['p']
}

/// The subsequence of `e`-tags, in order.
pub open spec fn spec_e_tags(ts: Seq<Seq<Seq<char>>>) -> Seq<Seq<Seq<char>>>
    decreases ts.len(),
{
    if ts.len() == 0 {
        Seq::<Seq<Seq<char>>>::empty()
    } else if spec_is_e_tag(ts[0]) {
        seq![ts[0]] + spec_e_tags(ts.drop_first())
    } else {
        spec_e_tags(ts.drop_first())
    }
}

/// The subsequence of tags that are neither `e` nor `p`, in order.
pub open spec fn spec_other_tags(ts: Seq<Seq<Seq<char>>>) -> Seq<Seq<Seq<char>>>
    decreases ts.len(),
{
    if ts.len() == 0 {
        Seq::<Seq<Seq<char>>>::empty()
    } else if !spec_is_e_tag(ts[0]) && !spec_is_p_tag(ts[0]) {
        seq![ts[0]] + spec_other_tags(ts.drop_first())
    } else {
        spec_other_tags(ts.drop_first())
    }
}

/// The reply tag list: one `p`-tag for the author, the first existing
/// `e`-tag if any (the thread root), one `e`-tag for the replied-to
/// event, then every non-`e`, non-`p` tag in original order.
pub open spec fn spec_reply_tags(
    tags: Seq<Seq<Seq<char>>>,
    author_pubkey: Seq<char>,
    event_id: Seq<char>,
) -> Seq<Seq<Seq<char>>> {
    seq![seq![seq!['p'], author_pubkey]]
        + (if spec_e_tags(tags).len() > 0 {
            seq![spec_e_tags(tags)[0]]
        } else {
            Seq::<Seq<Seq<char>>>::empty()
        })
        + seq![seq![seq!['e'], event_id]]
        + spec_other_tags(tags)
}

/// The deterministic reply-threading algorithm over an event's tags.
pub fn get_tags_for_reply(event: Event) -> (r: Vec<Vec<String>>)
    ensures
        r.deep_view() == spec_reply_tags(event.tags.deep_view(), event.pubkey@, event.id@),
{
    let ghost dv = event.tags.deep_view();
    let ghost pk = event.pubkey@;
    let ghost eid = event.id@;
    let mut work = event.tags;
    let mut first_e: Option<Vec<String>> = None;
    let mut other_tags: Vec<Vec<String>> = Vec::new();
    let ghost n = dv.len();
    let ghost mut i: int = 0;
    proof {
        assert(dv.skip(0) =~= dv);
    }
    while work.len() > 0
        invariant
            0 <= i <= n,
            n == dv.len(),
            work.deep_view() =~= dv.skip(i),
            work@.len() == n - i,
            match first_e {
                None => spec_e_tags(dv) =~= spec_e_tags(dv.skip(i)),
                Some(t) => spec_e_tags(dv).len() > 0 && t.deep_view() == spec_e_tags(dv)[0],
            },
            other_tags.deep_view() + spec_other_tags(dv.skip(i)) =~= spec_other_tags(dv),
        decreases n - i,
    {
        let ghost work_pre = work@;
        let t = work.remove(0);
        proof {
            assert(work_pre.remove(0) =~= work_pre.drop_first());
            assert forall|j: int| 0 <= j < work@.len() implies
                work.deep_view()[j] == dv.skip(i + 1)[j] by {
                assert(work@[j] == work_pre[j + 1]);
                assert(work_pre[j + 1].deep_view() == dv.skip(i)[j + 1]);
            }
            assert(work.deep_view() =~= dv.skip(i + 1));
            assert(t.deep_view() == dv.skip(i)[0]);
            assert(dv.skip(i)[0] == dv[i]);
            assert(dv.skip(i).drop_first() =~= dv.skip(i + 1));
        }
        let mut is_e: bool = false;
        let mut is_p: bool = false;
        if t.len() > 0 {
            is_e = crate::strkit::str_eq(t[0].as_str(), "e");
            is_p = crate::strkit::str_eq(t[0].as_str(), "p");
            proof {
                assert(t.deep_view()[0] == t@[0]@);
            }
        }
        proof {
            reveal_strlit("e");
            reveal_strlit("p");
            assert("e"@ =~= seq!['e']);
            assert("p"@ =~= seq!['p']);
            assert(is_e == spec_is_e_tag(dv[i]));
            assert(is_p == spec_is_p_tag(dv[i]));
        }
        if is_e {
            if first_e.is_none() {
                first_e = Some(t);
            }
        } else if !is_p {
            other_tags.push(t);
        }
        proof {
            i = i + 1;
        }
    }
    proof {
        assert(i == n);
        assert(dv.skip(n as int).len() == 0);
        assert(other_tags.deep_view() =~= spec_other_tags(dv));
    }

    let mut tags: Vec<Vec<String>> = Vec::new();
    let mut p_tag: Vec<String> = Vec::new();
    p_tag.push("p".to_owned());
    p_tag.push(event.pubkey);
    proof {
        reveal_strlit("p");
        assert("p"@ =~= seq!['p']);
        assert(p_tag.deep_view() =~= seq![seq!['p'], pk]);
    }
    tags.push(p_tag);
    match first_e {
        Some(t) => {
            tags.push(t);
        },
        None => {},
    }
    let mut e_tag: Vec<String> = Vec::new();
    e_tag.push("e".to_owned());
    e_tag.push(event.id);
    proof {
        reveal_strlit("e");
        assert("e"@ =~= seq!['e']);
        assert(e_tag.deep_view() =~= seq![seq!['e'], eid]);
    }
    tags.push(e_tag);
    let mut rest = other_tags;
    tags.append(&mut rest);
    proof {
        assert(tags.deep_view() =~= spec_reply_tags(dv, pk, eid));
    }
    tags
}

/// Replying to an event without tags yields exactly one `p`-tag naming
/// the author and one `e`-tag naming the event, in that order.
pub proof fn lemma_reply_tags_no_tags(pubkey: Seq<char>, id: Seq<char>)
    ensures
        spec_reply_tags(Seq::<Seq<Seq<char>>>::empty(), pubkey, id)
            =~= seq![seq![seq!['p'], pubkey], seq![seq!['e'], id]],
{
}

/// Replying to an event that already carries `e`-tags yields the
/// author's `p`-tag, then the first existing `e`-tag unchanged, then a
/// new `e`-tag for the event, then every non-`e`, non-`p` tag in the
/// original order.
pub proof fn lemma_reply_tags_with_e_tags(
    tags: Seq<Seq<Seq<char>>>,
    pubkey: Seq<char>,
    id: Seq<char>,
)
    requires
        spec_e_tags(tags).len() > 0,
    ensures
        spec_reply_tags(tags, pubkey, id).len() == 3 + spec_other_tags(tags).len(),
        spec_reply_tags(tags, pubkey, id)[0] == seq![seq!['p'], pubkey],
        spec_reply_tags(tags, pubkey, id)[1] == spec_e_tags(tags)[0],
        spec_reply_tags(tags, pubkey, id)[2] == seq![seq!['e'], id],
        forall|j: int| 0 <= j < spec_other_tags(tags).len()
            ==> spec_reply_tags(tags, pubkey, id)[3 + j] == spec_other_tags(tags)[j],
{
}

/// The `["REQ",...]` subscription filter asking for events that mention
/// `pubkey` from `since` onward, under the given correlation token.
pub open spec fn spec_subscription_request(
    token: Seq<char>,
    pubkey: Seq<char>,
    since: u64,
) -> Seq<char> {
    "[\"REQ\","@ + spec_quoted(token)
        + ",{\"#p\":["@ + spec_quoted(pubkey)
        + "],\"since\":"@ + spec_u64_dec(since as int)
        + "}]"@
}

/// Builds the subscription filter text for a given correlation token.
pub fn subscription_request_with_token(token: &str, pubkey: &str, since: u64) -> (r: String)
    ensures
        r@ == spec_subscription_request(token@, pubkey@, since),
{
    let mut out = String::new();
    out.append("[\"REQ\",");
    push_quoted(&mut out, token);
    out.append(",{\"#p\":[");
    push_quoted(&mut out, pubkey);
    out.append("],\"since\":");
    push_u64_dec(&mut out, since);
    out.append("}]");
    proof {
        assert(out@ =~= spec_subscription_request(token@, pubkey@, since));
    }
    out
}

/// Builds the subscription filter with a fresh random correlation token.
pub fn subscription_request(pubkey: &str, since: u64) -> (r: String)
    ensures
        exists|token: Seq<char>|
            token.len() == 64 && r@ == spec_subscription_request(token, pubkey@, since),
{
    let token = crypto::random_token();
    let r = subscription_request_with_token(token.as_str(), pubkey, since);
    proof {
        assert(token@.len() == 64 && r@ == spec_subscription_request(token@, pubkey@, since));
    }
    r
}

} // verus!
