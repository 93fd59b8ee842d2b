//! Identity store: maps a followed account name to the secret key that
//! signs its events. Kept sorted by username, with unique names and
//! valid secrets; the on-disk form is one `username:secret` line per
//! record, append-only. File I/O stays outside the library: the store
//! parses and renders text.

use vstd::prelude::*;

use crate::crypto;
use crate::strkit;

verus! {

/// The follow store: one record per followed account.
pub struct SimpleDatabase {
    follows: Vec<(String, String)>,
}

impl SimpleDatabase {
    /// The records as (username, secret) character sequences.
    pub closed spec fn entries(&self) -> Seq<(Seq<char>, Seq<char>)> {
        Seq::new(self.follows@.len(), |i: int| (self.follows@[i].0@, self.follows@[i].1@))
    }

    /// Records are strictly sorted by username (hence unique), and every
    /// secret is a valid key.
    pub open spec fn wf(&self) -> bool {
        &&& forall|i: int, j: int|
            0 <= i < j < self.entries().len()
                ==> strkit::spec_str_lt(self.entries()[i].0, self.entries()[j].0)
        &&& forall|i: int|
            0 <= i < self.entries().len()
                ==> crypto::pubkey_of(#[trigger] self.entries()[i].1).is_some()
    }

    /// Whether some record carries this username.
    pub open spec fn spec_contains(&self, name: Seq<char>) -> bool {
        exists|i: int| 0 <= i < self.entries().len() && self.entries()[i].0 == name
    }

    /// The secret of the record with this username.
    pub open spec fn spec_secret_of(&self, name: Seq<char>) -> Seq<char> {
        let i = choose|i: int| 0 <= i < self.entries().len() && self.entries()[i].0 == name;
        self.entries()[i].1
    }

    /// Two records never share a username.
    proof fn lemma_unique_names(&self, i: int, j: int)
        requires
            self.wf(),
            0 <= i < self.entries().len(),
            0 <= j < self.entries().len(),
            self.entries()[i].0 == self.entries()[j].0,
        ensures
            i == j,
    {
        if i < j {
            strkit::lemma_str_lt_irrefl(self.entries()[i].0);
        }
        if j < i {
            strkit::lemma_str_lt_irrefl(self.entries()[i].0);
        }
    }

    /// An empty store.
    pub fn new() -> (r: SimpleDatabase)
        ensures
            r.wf(),
            r.entries().len() == 0,
    {
        let r = SimpleDatabase { follows: Vec::new() };
        proof {
            assert(r.entries() =~= Seq::<(Seq<char>, Seq<char>)>::empty());
        }
        r
    }

    /// Whether this username is already followed.
    pub fn contains_key(&self, key: &str) -> (r: bool)
        ensures
            r == self.spec_contains(key@),
    {
        let n = self.follows.len();
        let mut i: usize = 0;
        while i < n
            invariant
                0 <= i <= n,
                n == self.follows@.len(),
                forall|j: int| 0 <= j < i ==> self.entries()[j].0 != key@,
            decreases n - i,
        {
            if strkit::str_eq(self.follows[i].0.as_str(), key) {
                proof {
                    assert(self.entries()[i as int].0 == key@);
                }
                return true;
            }
            i += 1;
        }
        false
    }

    /// The secret of a followed username.
    pub fn get(&self, key: &str) -> (r: String)
        requires
            self.wf(),
            self.spec_contains(key@),
        ensures
            r@ == self.spec_secret_of(key@),
            crypto::pubkey_of(r@).is_some(),
    {
        let n = self.follows.len();
        let mut i: usize = 0;
        while i < n
            invariant
                0 <= i <= n,
                n == self.follows@.len(),
                self.wf(),
                self.spec_contains(key@),
                forall|j: int| 0 <= j < i ==> self.entries()[j].0 != key@,
            decreases n - i,
        {
            if strkit::str_eq(self.follows[i].0.as_str(), key) {
                proof {
                    assert(self.entries()[i as int].0 == key@);
                    let w = choose|w: int|
                        0 <= w < self.entries().len() && self.entries()[w].0 == key@;
                    self.lemma_unique_names(i as int, w);
                }
                return self.follows[i].1.clone();
            }
            i += 1;
        }
        proof {
            let w = choose|w: int| 0 <= w < self.entries().len() && self.entries()[w].0 == key@;
            assert(false);
        }
        unreached()
    }

    /// Adds a record. Refused when the username is already present or
    /// the secret is not a valid key; otherwise the store afterwards
    /// holds exactly the old records plus the new one. Refusing an
    /// invalid secret up front is deliberately stricter than storing it
    /// and failing later at key derivation: it keeps the invariant that
    /// every record rehydrates into a keypair.
    pub fn insert(&mut self, username: String, seckey: String) -> (r: Result<(), String>)
        requires
            old(self).wf(),
        ensures
            final(self).wf(),
            old(self).spec_contains(username@) ==> r.is_err() && *final(self) == *old(self),
            !old(self).spec_contains(username@) && crypto::pubkey_of(seckey@).is_none()
                ==> r.is_err() && *final(self) == *old(self),
            !old(self).spec_contains(username@) && crypto::pubkey_of(seckey@).is_some() ==> {
                &&& r.is_ok()
                &&& final(self).entries().len() == old(self).entries().len() + 1
                &&& final(self).spec_contains(username@)
                &&& final(self).spec_secret_of(username@) == seckey@
                &&& forall|n: Seq<char>| #[trigger] old(self).spec_contains(n)
                    ==> final(self).spec_contains(n)
                        && final(self).spec_secret_of(n) == old(self).spec_secret_of(n)
                &&& forall|n: Seq<char>| #[trigger] final(self).spec_contains(n)
                    ==> n == username@ || old(self).spec_contains(n)
            },
    {
        if self.contains_key(username.as_str()) {
            return Err("Key already in the database".to_owned());
        }
        if crypto::derive_pubkey(seckey.as_str()).is_none() {
            return Err("invalid secret key".to_owned());
        }
        let ghost old_entries = self.entries();
        let ghost uname = username@;
        let n = self.follows.len();
        let mut p: usize = 0;
        while p < n && strkit::str_lt(self.follows[p].0.as_str(), username.as_str())
            invariant
                0 <= p <= n,
                n == self.follows@.len(),
                self.entries() == old_entries,
                uname == username@,
                forall|i: int| 0 <= i < p ==> strkit::spec_str_lt(
                    #[trigger] old_entries[i].0, uname),
            decreases n - p,
        {
            p += 1;
        }
        proof {
            if p < n {
                strkit::lemma_str_lt_trichotomy(old_entries[p as int].0, uname);
                assert(old_entries[p as int].0 != uname);
                assert(strkit::spec_str_lt(uname, old_entries[p as int].0));
            }
            assert forall|k: int| p <= k < n implies strkit::spec_str_lt(
                uname, old_entries[k].0) by {
                if k > p {
                    strkit::lemma_str_lt_trans(uname, old_entries[p as int].0,
                        old_entries[k].0);
                }
            }
        }
        self.follows.insert(p, (username, seckey));
        proof {
            let new_entries = self.entries();
            assert(new_entries.len() == old_entries.len() + 1);
            assert(new_entries[p as int].0 == uname && new_entries[p as int].1 == seckey@);
            assert forall|i: int| 0 <= i < new_entries.len() && i != p implies
                new_entries[i] == (if i < p { old_entries[i] } else {
                    old_entries[i - 1]
                }) by {
                if i < p {
                    assert(self.follows@[i] == old(self).follows@[i]);
                } else {
                    assert(self.follows@[i] == old(self).follows@[i - 1]);
                }
            }
            assert(final(self).wf());
            assert(final(self).spec_contains(uname));
            assert forall|nm: Seq<char>| old(self).spec_contains(nm) implies
                final(self).spec_contains(nm)
                    && final(self).spec_secret_of(nm) == old(self).spec_secret_of(nm) by {
                let i = choose|i: int|
                    0 <= i < old_entries.len() && old_entries[i].0 == nm;
                let i2: int = if i < p { i } else { i + 1 };
                assert(new_entries[i2].0 == nm);
                assert(final(self).spec_contains(nm));
                let w = choose|w: int|
                    0 <= w < new_entries.len() && new_entries[w].0 == nm;
                final(self).lemma_unique_names(i2, w);
                let w0 = choose|w0: int|
                    0 <= w0 < old_entries.len() && old_entries[w0].0 == nm;
                old(self).lemma_unique_names(i, w0);
            }
            assert forall|nm: Seq<char>| final(self).spec_contains(nm) implies
                nm == uname || old(self).spec_contains(nm) by {
                let w = choose|w: int|
                    0 <= w < new_entries.len() && new_entries[w].0 == nm;
                if w != p {
                    let orig: int = if w < p { w } else { w - 1 };
                    assert(old_entries[orig].0 == nm);
                }
            }
        }
        Ok(())
    }

    /// All records, sorted ascending by username.
    pub fn get_follows(&self) -> (r: Vec<(String, String)>)
        ensures
            r@.len() == self.entries().len(),
            forall|i: int| 0 <= i < r@.len()
                ==> (#[trigger] r@[i]).0@ == self.entries()[i].0
                    && r@[i].1@ == self.entries()[i].1,
    {
        let n = self.follows.len();
        let mut r: Vec<(String, String)> = Vec::new();
        let mut i: usize = 0;
        while i < n
            invariant
                0 <= i <= n,
                n == self.follows@.len(),
                r@.len() == i,
                forall|j: int| 0 <= j < i
                    ==> (#[trigger] r@[j]).0@ == self.entries()[j].0
                        && r@[j].1@ == self.entries()[j].1,
            decreases n - i,
        {
            r.push((self.follows[i].0.clone(), self.follows[i].1.clone()));
            i += 1;
        }
        r
    }

    /// How many accounts are followed.
    pub fn follows_count(&self) -> (r: usize)
        ensures
            r == self.entries().len(),
    {
        self.follows.len()
    }
}

/// The record a stored line carries: the text left and right of the
/// single `:`; `None` when the line does not have exactly one `:`.
pub open spec fn spec_line_entry(line: Seq<char>) -> Option<(Seq<char>, Seq<char>)> {
    let pieces = strkit::spec_split(line, ':');
    if pieces.len() == 2 {
        Some((pieces[0], pieces[1]))
    } else {
        None
    }
}

/// Whether persisted text rehydrates cleanly: no username appears on
/// two well-formed `username:secret` lines — not even with the same
/// secret — and every stored secret is a valid key.
pub open spec fn spec_text_consistent(content: Seq<char>) -> bool {
    let lines = strkit::spec_split(content, '\n');
    &&& forall|i: int, j: int|
        #![trigger spec_line_entry(lines[i]), spec_line_entry(lines[j])]
        0 <= i < j < lines.len() && spec_line_entry(lines[i]).is_some()
            && spec_line_entry(lines[j]).is_some()
            ==> spec_line_entry(lines[i]).unwrap().0 != spec_line_entry(lines[j]).unwrap().0
    &&& forall|i: int| 0 <= i < lines.len() && (#[trigger] spec_line_entry(lines[i])).is_some()
        ==> crypto::pubkey_of(spec_line_entry(lines[i]).unwrap().1).is_some()
}

/// Rebuilds a store from the persisted text, one `username:secret` per
/// line. Lines without exactly one `:` are skipped. Succeeds exactly on
/// consistent text — a repeated username (even with an equal secret) or
/// an invalid secret is fatal — and then holds every well-formed line's
/// record, and nothing else.
pub fn from_text(content: &str) -> (r: Result<SimpleDatabase, String>)
    ensures
        r.is_ok() == spec_text_consistent(content@),
        r.is_ok() ==> {
            let db = r.unwrap();
            let lines = strkit::spec_split(content@, '\n');
            &&& db.wf()
            &&& forall|i: int| 0 <= i < lines.len() && (#[trigger] spec_line_entry(
                lines[i])).is_some() ==> db.spec_contains(spec_line_entry(lines[i]).unwrap().0)
                && db.spec_secret_of(spec_line_entry(lines[i]).unwrap().0)
                    == spec_line_entry(lines[i]).unwrap().1
            &&& forall|n: Seq<char>| #[trigger] db.spec_contains(n) ==> exists|i: int|
                0 <= i < lines.len() && (#[trigger] spec_line_entry(lines[i])).is_some()
                    && spec_line_entry(lines[i]).unwrap().0 == n
        },
{
    let lines = strkit::split_char(content, '\n');
    let ghost lv = strkit::spec_split(content@, '\n');
    let mut db = SimpleDatabase::new();
    let n = lines.len();
    let mut i: usize = 0;
    proof {
        assert(lines.deep_view() == lv);
    }
    while i < n
        invariant
            0 <= i <= n,
            n == lines@.len(),
            lines.deep_view() == lv,
            lv == strkit::spec_split(content@, '\n'),
            n == lv.len(),
            db.wf(),
            forall|j: int| 0 <= j < i && (#[trigger] spec_line_entry(lv[j])).is_some()
                ==> db.spec_contains(spec_line_entry(lv[j]).unwrap().0)
                    && db.spec_secret_of(spec_line_entry(lv[j]).unwrap().0)
                        == spec_line_entry(lv[j]).unwrap().1,
            forall|nm: Seq<char>| #[trigger] db.spec_contains(nm) ==> exists|j: int|
                0 <= j < i && (#[trigger] spec_line_entry(lv[j])).is_some()
                    && spec_line_entry(lv[j]).unwrap().0 == nm,
            forall|j1: int, j2: int|
                #![trigger spec_line_entry(lv[j1]), spec_line_entry(lv[j2])]
                0 <= j1 < j2 < i && spec_line_entry(lv[j1]).is_some()
                    && spec_line_entry(lv[j2]).is_some()
                    ==> spec_line_entry(lv[j1]).unwrap().0 != spec_line_entry(lv[j2]).unwrap().0,
        decreases n - i,
    {
        proof {
            assert(lv[i as int] == lines@[i as int]@);
        }
        let pieces = strkit::split_char(lines[i].as_str(), ':');
        proof {
            assert(pieces.deep_view() == strkit::spec_split(lv[i as int], ':'));
        }
        if pieces.len() == 2 {
            proof {
                assert(pieces.deep_view()[0] == pieces@[0]@);
                assert(pieces.deep_view()[1] == pieces@[1]@);
            }
            let username = pieces[0].clone();
            let seckey = pieces[1].clone();
            let ghost uname_i = username@;
            let ghost seckey_i = seckey@;
            let ghost db_before = db;
            match db.insert(username, seckey) {
                Ok(()) => {
                    proof {
                        assert(spec_line_entry(lv[i as int]).is_some());
                        assert(spec_line_entry(lv[i as int]).unwrap().0 == uname_i);
                        assert forall|j: int| 0 <= j < i + 1 && (#[trigger] spec_line_entry(
                            lv[j])).is_some() implies db.spec_contains(
                            spec_line_entry(lv[j]).unwrap().0)
                            && db.spec_secret_of(spec_line_entry(lv[j]).unwrap().0)
                                == spec_line_entry(lv[j]).unwrap().1 by {
                            if j < i {
                                assert(db_before.spec_contains(spec_line_entry(lv[j]).unwrap().0));
                            }
                        }
                        assert forall|nm: Seq<char>| #[trigger] db.spec_contains(nm) implies
                            exists|j: int| 0 <= j < i + 1 && (#[trigger] spec_line_entry(
                                lv[j])).is_some() && spec_line_entry(lv[j]).unwrap().0 == nm by {
                            if nm != uname_i {
                                assert(db_before.spec_contains(nm));
                                let j = choose|j: int| 0 <= j < i && (#[trigger] spec_line_entry(
                                    lv[j])).is_some() && spec_line_entry(lv[j]).unwrap().0 == nm;
                                assert(0 <= j < i + 1 && spec_line_entry(lv[j]).is_some()
                                    && spec_line_entry(lv[j]).unwrap().0 == nm);
                            } else {
                                let j = i as int;
                                assert(0 <= j < i + 1 && spec_line_entry(lv[j]).is_some()
                                    && spec_line_entry(lv[j]).unwrap().0 == nm);
                            }
                        }
                        assert(!db_before.spec_contains(uname_i));
                        assert forall|j1: int, j2: int|
                            #![trigger spec_line_entry(lv[j1]), spec_line_entry(lv[j2])]
                            0 <= j1 < j2 < i + 1 && spec_line_entry(lv[j1]).is_some()
                                && spec_line_entry(lv[j2]).is_some() implies
                            spec_line_entry(lv[j1]).unwrap().0
                                != spec_line_entry(lv[j2]).unwrap().0 by {
                            if j2 == i {
                                assert(db_before.spec_contains(
                                    spec_line_entry(lv[j1]).unwrap().0));
                            }
                        }
                    }
                },
                Err(e) => {
                    proof {
                        assert(spec_line_entry(lv[i as int]) == Some((uname_i, seckey_i)));
                        if db_before.spec_contains(uname_i) {
                            let j = choose|j: int| 0 <= j < i && (#[trigger] spec_line_entry(
                                lv[j])).is_some() && spec_line_entry(lv[j]).unwrap().0 == uname_i;
                            assert(0 <= j < i < lv.len() && spec_line_entry(lv[j]).is_some()
                                && spec_line_entry(lv[i as int]).is_some()
                                && spec_line_entry(lv[j]).unwrap().0
                                    == spec_line_entry(lv[i as int]).unwrap().0);
                            assert(!spec_text_consistent(content@));
                        } else {
                            assert(crypto::pubkey_of(seckey_i).is_none());
                            assert(!spec_text_consistent(content@));
                        }
                    }
                    return Err(e);
                },
            }
        }
        i += 1;
    }
    proof {
        assert forall|k: int| 0 <= k < lv.len() && (#[trigger] spec_line_entry(
            lv[k])).is_some() implies crypto::pubkey_of(
            spec_line_entry(lv[k]).unwrap().1).is_some() by {
            let nm = spec_line_entry(lv[k]).unwrap().0;
            assert(db.spec_contains(nm));
            assert(db.spec_secret_of(nm) == spec_line_entry(lv[k]).unwrap().1);
            let w = choose|w: int| 0 <= w < db.entries().len() && db.entries()[w].0 == nm;
            assert(crypto::pubkey_of(db.entries()[w].1).is_some());
        }
        assert(spec_text_consistent(content@));
    }
    Ok(db)
}

/// The persisted line for one record: `username:secret` and a newline.
pub fn record_line(username: &str, seckey: &str) -> (r: String)
    ensures
        r@ == username@ + seq![':'] + seckey@ + seq!['\n'],
{
    let mut out = String::new();
    out.append(username);
    strkit::push_char(&mut out, ':');
    out.append(seckey);
    strkit::push_char(&mut out, '\n');
    proof {
        assert(out@ =~= username@ + seq![':'] + seckey@ + seq!['\n']);
    }
    out
}

/// The secret and public key of a followed username.
pub fn get_user_keypair(username: &str, db: &SimpleDatabase) -> (r: (String, String))
    requires
        db.wf(),
        db.spec_contains(username@),
    ensures
        r.0@ == db.spec_secret_of(username@),
        crypto::pubkey_of(r.0@) == Some(r.1@),
{
    let secret = db.get(username);
    let pubkey = match crypto::derive_pubkey(secret.as_str()) {
        Some(p) => p,
        None => {
            proof {
                assert(false);
            }
            unreached()
        },
    };
    (secret, pubkey)
}

} // verus!
