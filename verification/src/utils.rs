//! Agent configuration and small shared helpers.

use vstd::prelude::*;

use crate::crypto;
use crate::strkit;

verus! {

/// Runtime configuration of the agent.
pub struct Config {
    pub secret: String,
    pub hello_message: String,
    pub refresh_interval_secs: u64,
    pub relay: String,
    pub max_follows: usize,
}

/// The value a config line assigns: the text after the first `=`, with
/// one pair of surrounding double quotes stripped.
pub open spec fn spec_cfg_value(line: Seq<char>) -> Seq<char> {
    let raw = strkit::spec_split(line, '=')[1];
    if raw.len() >= 2 && raw[0] == '"' && raw[raw.len() - 1] == '"' {
        raw.subrange(1, raw.len() - 1)
    } else {
        raw
    }
}

/// Whether a config line assigns this key: it starts with the key's
/// name and carries an `=`.
pub open spec fn spec_line_sets(line: Seq<char>, key: Seq<char>) -> bool {
    key.is_prefix_of(line) && strkit::spec_split(line, '=').len() >= 2
}

/// The value the config text leaves a key at: the last assignment wins.
pub open spec fn spec_cfg_field(lines: Seq<Seq<char>>, key: Seq<char>) -> Option<Seq<char>>
    decreases lines.len(),
{
    if lines.len() == 0 {
        None
    } else if spec_line_sets(lines.last(), key) {
        Some(spec_cfg_value(lines.last()))
    } else {
        spec_cfg_field(lines.drop_last(), key)
    }
}

/// Whether the config text yields a complete, valid configuration.
pub open spec fn spec_cfg_ok(lines: Seq<Seq<char>>) -> bool {
    &&& spec_cfg_field(lines, "secret"@) matches Some(s) && s.len() > 0
    &&& spec_cfg_field(lines, "hello_message"@) matches Some(h) && h.len() > 0
    &&& spec_cfg_field(lines, "refresh_interval_secs"@) matches Some(v)
        && strkit::spec_parse_u64(v) matches Some(n) && n > 0
    &&& spec_cfg_field(lines, "relay"@) matches Some(rl) && rl.len() > 0
    &&& spec_cfg_field(lines, "max_follows"@) matches Some(m)
        && strkit::spec_parse_u64(m) matches Some(mf) && mf > 0 && mf <= usize::MAX
}

fn cfg_value(line: &str) -> (r: Option<String>)
    ensures
        strkit::spec_split(line@, '=').len() >= 2 ==> r.is_some()
            && r.unwrap()@ == spec_cfg_value(line@),
        strkit::spec_split(line@, '=').len() < 2 ==> r.is_none(),
{
    let pieces = strkit::split_char(line, '=');
    proof {
        assert(pieces.deep_view() == strkit::spec_split(line@, '='));
        assert(pieces.deep_view().len() == pieces@.len());
    }
    if pieces.len() < 2 {
        return None;
    }
    proof {
        assert(pieces.deep_view()[1] == pieces@[1]@);
    }
    let raw = &pieces[1];
    let n = raw.as_str().unicode_len();
    if n >= 2 && raw.as_str().get_char(0) == '"' && raw.as_str().get_char(n - 1) == '"' {
        Some(raw.as_str().substring_char(1, n - 1).to_owned())
    } else {
        Some(raw.clone())
    }
}

/// Parses the configuration text: `key=value` lines, comments starting
/// `#`, a later assignment overriding an earlier one. An error exactly
/// when a key is missing, a number does not parse, or a value that must
/// be non-empty or positive is not.
pub fn parse_config(content: &str) -> (r: Result<Config, String>)
    ensures
        r.is_ok() == spec_cfg_ok(strkit::spec_split(content@, '\n')),
        r.is_ok() ==> {
            let lines = strkit::spec_split(content@, '\n');
            let c = r.unwrap();
            &&& Some(c.secret@) == spec_cfg_field(lines, "secret"@)
            &&& Some(c.hello_message@) == spec_cfg_field(lines, "hello_message"@)
            &&& Some(c.refresh_interval_secs) == strkit::spec_parse_u64(
                spec_cfg_field(lines, "refresh_interval_secs"@).unwrap())
            &&& Some(c.relay@) == spec_cfg_field(lines, "relay"@)
            &&& Some(c.max_follows as u64) == strkit::spec_parse_u64(
                spec_cfg_field(lines, "max_follows"@).unwrap())
        },
{
    let lines = strkit::split_char(content, '\n');
    let ghost lv = strkit::spec_split(content@, '\n');
    let mut secret: Option<String> = None;
    let mut hello_message: Option<String> = None;
    let mut refresh: Option<String> = None;
    let mut relay: Option<String> = None;
    let mut max_follows: Option<String> = None;
    let n = lines.len();
    let mut i: usize = 0;
    proof {
        assert(lines.deep_view() == lv);
        assert(lv.take(0).len() == 0);
    }
    while i < n
        invariant
            0 <= i <= n,
            n == lines@.len(),
            lines.deep_view() == lv,
            n == lv.len(),
            (match secret {
                Some(v) => spec_cfg_field(lv.take(i as int), "secret"@) == Some(v@),
                None => spec_cfg_field(lv.take(i as int), "secret"@).is_none(),
            }),
            (match hello_message {
                Some(v) => spec_cfg_field(lv.take(i as int), "hello_message"@) == Some(v@),
                None => spec_cfg_field(lv.take(i as int), "hello_message"@).is_none(),
            }),
            (match refresh {
                Some(v) => spec_cfg_field(lv.take(i as int), "refresh_interval_secs"@)
                    == Some(v@),
                None => spec_cfg_field(lv.take(i as int),
                    "refresh_interval_secs"@).is_none(),
            }),
            (match relay {
                Some(v) => spec_cfg_field(lv.take(i as int), "relay"@) == Some(v@),
                None => spec_cfg_field(lv.take(i as int), "relay"@).is_none(),
            }),
            (match max_follows {
                Some(v) => spec_cfg_field(lv.take(i as int), "max_follows"@) == Some(v@),
                None => spec_cfg_field(lv.take(i as int), "max_follows"@).is_none(),
            }),
        decreases n - i,
    {
        proof {
            assert(lv[i as int] == lines@[i as int]@);
            assert(lv.take(i + 1).last() == lv[i as int]);
            assert(lv.take(i + 1).drop_last() =~= lv.take(i as int));
        }
        let line = &lines[i];
        let value = cfg_value(line.as_str());
        if strkit::str_starts_with(line.as_str(), "secret") {
            match value {
                Some(v) => {
                    secret = Some(v);
                },
                None => {},
            }
        } else if strkit::str_starts_with(line.as_str(), "hello_message") {
            match value {
                Some(v) => {
                    hello_message = Some(v);
                },
                None => {},
            }
        } else if strkit::str_starts_with(line.as_str(), "refresh_interval_secs") {
            match value {
                Some(v) => {
                    refresh = Some(v);
                },
                None => {},
            }
        } else if strkit::str_starts_with(line.as_str(), "relay") {
            match value {
                Some(v) => {
                    relay = Some(v);
                },
                None => {},
            }
        } else if strkit::str_starts_with(line.as_str(), "max_follows") {
            match value {
                Some(v) => {
                    max_follows = Some(v);
                },
                None => {},
            }
        }
        proof {
            reveal_strlit("secret");
            reveal_strlit("hello_message");
            reveal_strlit("refresh_interval_secs");
            reveal_strlit("relay");
            reveal_strlit("max_follows");
            let l = lv[i as int];
            if "secret"@.is_prefix_of(l) {
                assert(l.subrange(0, 6)[0] == l[0]);
                assert(l[0] == 's');
            }
            if "hello_message"@.is_prefix_of(l) {
                assert(l.subrange(0, 13)[0] == l[0]);
                assert(l[0] == 'h');
            }
            if "refresh_interval_secs"@.is_prefix_of(l) {
                assert(l.subrange(0, 21)[0] == l[0]);
                assert(l.subrange(0, 21)[2] == l[2]);
                assert(l[0] == 'r' && l[2] == 'f');
            }
            if "relay"@.is_prefix_of(l) {
                assert(l.subrange(0, 5)[0] == l[0]);
                assert(l.subrange(0, 5)[2] == l[2]);
                assert(l[0] == 'r' && l[2] == 'l');
            }
            if "max_follows"@.is_prefix_of(l) {
                assert(l.subrange(0, 11)[0] == l[0]);
                assert(l[0] == 'm');
            }
        }
        i += 1;
    }
    proof {
        assert(lv.take(n as int) =~= lv);
    }
    let secret = match secret {
        Some(v) => v,
        None => {
            return Err("config: secret is missing".to_owned());
        },
    };
    let hello_message = match hello_message {
        Some(v) => v,
        None => {
            return Err("config: hello_message is missing".to_owned());
        },
    };
    let refresh = match refresh {
        Some(v) => v,
        None => {
            return Err("config: refresh_interval_secs is missing".to_owned());
        },
    };
    let relay = match relay {
        Some(v) => v,
        None => {
            return Err("config: relay is missing".to_owned());
        },
    };
    let max_follows = match max_follows {
        Some(v) => v,
        None => {
            return Err("config: max_follows is missing".to_owned());
        },
    };
    if secret.as_str().is_empty() {
        return Err("config: secret is empty".to_owned());
    }
    if hello_message.as_str().is_empty() {
        return Err("config: hello_message is empty".to_owned());
    }
    if relay.as_str().is_empty() {
        return Err("config: relay is empty".to_owned());
    }
    let refresh_interval_secs = match strkit::parse_u64(refresh.as_str()) {
        Some(v) => v,
        None => {
            return Err("config: refresh_interval_secs does not parse".to_owned());
        },
    };
    if refresh_interval_secs == 0 {
        return Err("config: refresh_interval_secs is zero".to_owned());
    }
    let max_value = match strkit::parse_u64(max_follows.as_str()) {
        Some(v) => v,
        None => {
            return Err("config: max_follows does not parse".to_owned());
        },
    };
    if max_value == 0 {
        return Err("config: max_follows is zero".to_owned());
    }
    if max_value > usize::MAX as u64 {
        return Err("config: max_follows is too large".to_owned());
    }
    Ok(Config {
        secret,
        hello_message,
        refresh_interval_secs,
        relay,
        max_follows: max_value as usize,
    })
}

/// Relies on std SystemTime::now: seconds since the Unix epoch, 0 when
/// the clock reads earlier than the epoch.
#[verifier::external_body]
pub fn unix_timestamp() -> u64 {
    match std::time::SystemTime::now().duration_since(std::time::UNIX_EPOCH) {
        Ok(d) => d.as_secs(),
        Err(_) => 0,
    }
}

/// A fresh identity: secret key and its public key, both in hex.
pub fn get_random_keypair() -> (r: (String, String))
    ensures
        crypto::pubkey_of(r.0@) == Some(r.1@),
        crypto::is_hex64(r.0@),
{
    let secret = crypto::generate_secret();
    let pubkey = match crypto::derive_pubkey(secret.as_str()) {
        Some(p) => p,
        None => {
            proof {
                assert(false);
            }
            unreached()
        },
    };
    (secret, pubkey)
}

} // verus!
