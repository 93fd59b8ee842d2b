//! Feed side of the worker: parsing the feed tool's tab-separated
//! output into items, the per-cycle watermark rule, and rewriting of
//! shortened links inside an item's text.

use vstd::prelude::*;
use vstd::string::StringSliceAdditionalSpecFns;

use crate::bot::ConnectionStatus;
use crate::nostr::EventNonSigned;
use crate::strkit;
use crate::strkit::spec_u64_dec;
use crate::utils;

verus! {

/// One feed item: when it was published, its text, and its permalink.
pub struct Tweet {
    pub timestamp: u64,
    pub tweet: String,
    pub link: String,
}

/// The text-note draft for one feed item: the text followed by a
/// source link, and one tag carrying the original timestamp.
pub fn get_tweet_event(tweet: &Tweet) -> (r: EventNonSigned)
    ensures
        r.kind == 1,
        r.content@ == tweet.tweet@ + " ([source]("@ + tweet.link@ + "))"@,
        r.tags.deep_view() =~= seq![
            seq!["tweet_timestamp"@, spec_u64_dec(tweet.timestamp as int)]
        ],
{
    let mut content = String::new();
    content.append(tweet.tweet.as_str());
    content.append(" ([source](");
    content.append(tweet.link.as_str());
    content.append("))");
    proof {
        assert(content@ =~= tweet.tweet@ + " ([source]("@ + tweet.link@ + "))"@);
    }
    let mut tag: Vec<String> = Vec::new();
    tag.push("tweet_timestamp".to_owned());
    tag.push(strkit::u64_to_dec(tweet.timestamp));
    proof {
        assert(tag.deep_view() =~= seq!["tweet_timestamp"@,
            spec_u64_dec(tweet.timestamp as int)]);
    }
    let ghost gtag = tag.deep_view();
    let mut tags: Vec<Vec<String>> = Vec::new();
    tags.push(tag);
    proof {
        assert(tags.deep_view() =~= seq![gtag]);
        assert(tags.deep_view() =~= seq![
            seq!["tweet_timestamp"@, spec_u64_dec(tweet.timestamp as int)]
        ]);
    }
    EventNonSigned { created_at: utils::unix_timestamp(), kind: 1, tags, content }
}

/// The metadata (profile) draft a worker emits once at birth,
/// advertising the forwarded account.
pub fn profile_event(username: &str, pic_url: &str) -> (r: EventNonSigned)
    ensures
        r.kind == 0,
        r.tags.deep_view() =~= Seq::<Seq<Seq<char>>>::empty(),
        r.content@ == "{\"name\":\"tostr_"@ + username@
            + "\",\"about\":\"Tweets forwarded from https://twitter.com/"@ + username@
            + " by [tostr](https://github.com/slaninas/tostr) bot.\",\"picture\":\""@
            + pic_url@ + "\"}"@,
{
    let mut content = String::new();
    content.append("{\"name\":\"tostr_");
    content.append(username);
    content.append("\",\"about\":\"Tweets forwarded from https://twitter.com/");
    content.append(username);
    content.append(" by [tostr](https://github.com/slaninas/tostr) bot.\",\"picture\":\"");
    content.append(pic_url);
    content.append("\"}");
    proof {
        assert(content@ =~= "{\"name\":\"tostr_"@ + username@
            + "\",\"about\":\"Tweets forwarded from https://twitter.com/"@ + username@
            + " by [tostr](https://github.com/slaninas/tostr) bot.\",\"picture\":\""@
            + pic_url@ + "\"}"@);
    }
    EventNonSigned {
        created_at: utils::unix_timestamp(),
        kind: 0,
        tags: Vec::new(),
        content,
    }
}

/// The timestamp, in Unix seconds, that chrono's parser reads from the
/// feed's `date time zone` text; `None` when the text does not parse.
pub uninterp spec fn tweet_ts_of(s: Seq<char>) -> Option<i64>;

/// Relies on chrono's DateTime::parse_from_str with a fixed format:
/// the result is a function of the text alone.
#[verifier::external_body]
fn parse_feed_timestamp(s: &str) -> (r: Option<i64>)
    ensures
        r == tweet_ts_of(s@),
{
    match chrono::DateTime::parse_from_str(s, "%Y-%m-%d %T %z") {
        Ok(dt) => Some(dt.timestamp()),
        Err(_) => None,
    }
}

/// The date text of a feed row: fields 3, 4 and 5 joined by spaces.
pub open spec fn spec_row_date(pieces: Seq<Seq<char>>) -> Seq<char> {
    pieces[3] + seq![' '] + pieces[4] + seq![' '] + pieces[5]
}

/// The item a feed row yields: `None` for the rows that are skipped —
/// too few fields, a reply (text starting `@`), or an unparseable or
/// pre-epoch date.
pub open spec fn spec_row_tweet(line: Seq<char>) -> Option<(u64, Seq<char>, Seq<char>)> {
    let pieces = strkit::spec_split(line, '\t');
    if pieces.len() < 21 {
        None
    } else if pieces[10].len() > 0 && pieces[10][0] == '@' {
        None
    } else if tweet_ts_of(spec_row_date(pieces)).is_none() {
        None
    } else if tweet_ts_of(spec_row_date(pieces)).unwrap() < 0 {
        None
    } else {
        Some((tweet_ts_of(spec_row_date(pieces)).unwrap() as u64, pieces[10], pieces[20]))
    }
}

/// The items of all rows after the header, in file order.
pub open spec fn spec_tweets_from(lines: Seq<Seq<char>>) -> Seq<(u64, Seq<char>, Seq<char>)>
    decreases lines.len(),
{
    if lines.len() == 0 {
        Seq::<(u64, Seq<char>, Seq<char>)>::empty()
    } else if spec_row_tweet(lines[0]).is_some() {
        seq![spec_row_tweet(lines[0]).unwrap()] + spec_tweets_from(lines.drop_first())
    } else {
        spec_tweets_from(lines.drop_first())
    }
}

/// The items the feed tool's whole output yields: every row after the
/// header line.
pub open spec fn spec_parse_tweets(content: Seq<char>) -> Seq<(u64, Seq<char>, Seq<char>)> {
    spec_tweets_from(strkit::spec_split(content, '\n').drop_first())
}

/// Parses the feed tool's tab-separated output. The first line is a
/// header; malformed rows and replies are skipped, never an error.
pub fn parse_tweets(content: &str) -> (r: Vec<Tweet>)
    ensures
        r@.len() == spec_parse_tweets(content@).len(),
        forall|i: int| 0 <= i < r@.len() ==> {
            let t = spec_parse_tweets(content@)[i];
            (#[trigger] r@[i]).timestamp == t.0 && r@[i].tweet@ == t.1 && r@[i].link@ == t.2
        },
{
    let lines = strkit::split_char(content, '\n');
    let ghost all_lines = strkit::spec_split(content@, '\n');
    let ghost lv = all_lines.drop_first();
    let mut r: Vec<Tweet> = Vec::new();
    let n = lines.len();
    let mut i: usize = 1;
    proof {
        assert(lines.deep_view() == all_lines);
        assert(lv.skip(0) =~= lv);
        assert(all_lines.len() > 0);
        assert(all_lines.skip(1) =~= lv);
    }
    while i < n
        invariant
            1 <= i <= n,
            n == lines@.len(),
            lines.deep_view() == all_lines,
            n == all_lines.len(),
            lv == all_lines.drop_first(),
            r@.len() + spec_tweets_from(lv.skip(i - 1)).len() == spec_tweets_from(lv).len(),
            forall|j: int| 0 <= j < r@.len() ==> {
                let t = spec_tweets_from(lv)[j];
                (#[trigger] r@[j]).timestamp == t.0 && r@[j].tweet@ == t.1 && r@[j].link@ == t.2
            },
            forall|j: int| 0 <= j < spec_tweets_from(lv.skip(i - 1)).len()
                ==> #[trigger] spec_tweets_from(lv.skip(i - 1))[j]
                    == spec_tweets_from(lv)[r@.len() + j],
        decreases n - i,
    {
        proof {
            assert(lv.skip(i - 1)[0] == lv[i - 1]);
            assert(lv[i - 1] == all_lines[i as int]);
            assert(all_lines[i as int] == lines@[i as int]@);
            assert(lv.skip(i - 1).drop_first() =~= lv.skip(i as int));
        }
        let pieces = strkit::split_char(lines[i].as_str(), '\t');
        let ghost row = spec_row_tweet(lv[i - 1]);
        proof {
            assert(pieces.deep_view() == strkit::spec_split(lv[i - 1], '\t'));
            assert(pieces.deep_view().len() == pieces@.len());
            assert(lv.skip(i - 1).len() > 0);
        }
        if pieces.len() >= 21 {
            proof {
                assert(pieces.deep_view()[10] == pieces@[10]@);
                assert(pieces.deep_view()[3] == pieces@[3]@);
                assert(pieces.deep_view()[4] == pieces@[4]@);
                assert(pieces.deep_view()[5] == pieces@[5]@);
                assert(pieces.deep_view()[20] == pieces@[20]@);
            }
            let text = &pieces[10];
            let is_reply = text.as_str().unicode_len() > 0
                && text.as_str().get_char(0) == '@';
            if !is_reply {
                let mut date = String::new();
                date.append(pieces[3].as_str());
                strkit::push_char(&mut date, ' ');
                date.append(pieces[4].as_str());
                strkit::push_char(&mut date, ' ');
                date.append(pieces[5].as_str());
                proof {
                    assert(date@ =~= spec_row_date(pieces.deep_view()));
                }
                match parse_feed_timestamp(date.as_str()) {
                    Some(ts) => {
                        if ts >= 0 {
                            proof {
                                assert(row == Some((ts as u64, pieces.deep_view()[10],
                                    pieces.deep_view()[20])));
                            }
                            let ghost r_before = r@;
                            r.push(Tweet {
                                timestamp: ts as u64,
                                tweet: pieces[10].clone(),
                                link: pieces[20].clone(),
                            });
                            proof {
                                assert(spec_tweets_from(lv.skip(i - 1))
                                    =~= seq![row.unwrap()] + spec_tweets_from(lv.skip(i as int)));
                                assert(spec_tweets_from(lv.skip(i - 1))[0] == row.unwrap());
                                assert(spec_tweets_from(lv)[r_before.len() as int]
                                    == row.unwrap());
                                assert(r@[r_before.len() as int].timestamp == row.unwrap().0);
                                assert(r@[r_before.len() as int].tweet@ == row.unwrap().1);
                                assert(r@[r_before.len() as int].link@ == row.unwrap().2);
                                assert forall|j: int|
                                    0 <= j < spec_tweets_from(lv.skip(i as int)).len() implies
                                    #[trigger] spec_tweets_from(lv.skip(i as int))[j]
                                        == spec_tweets_from(lv)[r@.len() + j] by {
                                    assert(spec_tweets_from(lv.skip(i - 1))[j + 1]
                                        == spec_tweets_from(lv)[r_before.len() + j + 1]);
                                }
                            }
                        } else {
                            proof {
                                assert(row.is_none());
                                assert(spec_tweets_from(lv.skip(i - 1))
                                    =~= spec_tweets_from(lv.skip(i as int)));
                            }
                        }
                    },
                    None => {
                        proof {
                            assert(row.is_none());
                            assert(spec_tweets_from(lv.skip(i - 1))
                                =~= spec_tweets_from(lv.skip(i as int)));
                        }
                    },
                }
            } else {
                proof {
                    assert(pieces.deep_view()[10].len() > 0
                        && pieces.deep_view()[10][0] == '@');
                    assert(row.is_none());
                    assert(spec_tweets_from(lv.skip(i - 1))
                        =~= spec_tweets_from(lv.skip(i as int)));
                }
            }
        } else {
            proof {
                assert(strkit::spec_split(lv[i - 1], '\t').len() < 21);
                assert(row.is_none());
                assert(spec_tweets_from(lv.skip(i - 1))
                    =~= spec_tweets_from(lv.skip(i as int)));
            }
        }
        i += 1;
    }
    proof {
        assert(lv.skip(n - 1).len() == 0);
        assert(spec_tweets_from(lv.skip(n - 1)).len() == 0);
    }
    r
}

/// One worker poll cycle, after the feed call has returned. On success
/// the watermark advances to `until` — also when nothing was found —
/// and the items are handed back oldest first; on failure the watermark
/// stays, so the same window is retried, and the cycle reports `Failed`.
pub fn worker_cycle(watermark: u64, until: u64, fetched: Result<Vec<Tweet>, String>) -> (r: (
    u64,
    Vec<Tweet>,
    ConnectionStatus,
))
    ensures
        fetched.is_ok() ==> {
            let got = fetched.unwrap()@;
            &&& r.0 == until
            &&& r.2 == ConnectionStatus::Success
            &&& r.1@.len() == got.len()
            &&& forall|i: int| 0 <= i < got.len()
                ==> r.1@[i] == got[got.len() - 1 - i]
        },
        fetched.is_err() ==> r.0 == watermark && r.1@.len() == 0
            && r.2 == ConnectionStatus::Failed,
{
    match fetched {
        Ok(tweets) => {
            let ghost got = tweets@;
            let mut source = tweets;
            let mut ordered: Vec<Tweet> = Vec::new();
            while source.len() > 0
                invariant
                    source@.len() + ordered@.len() == got.len(),
                    source@ =~= got.take(source@.len() as int),
                    forall|i: int| 0 <= i < ordered@.len()
                        ==> #[trigger] ordered@[i] == got[got.len() - 1 - i],
                decreases source.len(),
            {
                let t = match source.pop() {
                    Some(t) => t,
                    None => {
                        proof {
                            assert(false);
                        }
                        unreached()
                    },
                };
                proof {
                    assert(got.take(source@.len() as int + 1)[source@.len() as int]
                        == got[source@.len() as int]);
                    assert(got.take(source@.len() as int + 1).drop_last() =~= got.take(
                        source@.len() as int));
                }
                ordered.push(t);
            }
            (until, ordered, ConnectionStatus::Success)
        },
        Err(_) => (watermark, Vec::new(), ConnectionStatus::Failed),
    }
}

// ---------------------------------------------------------------------
// Link rewriting
// ---------------------------------------------------------------------

/// The byte spans at which linkify finds links in a text.
pub uninterp spec fn link_spans_of(text: Seq<u8>) -> Seq<(usize, usize)>;

/// Spans are ordered, non-overlapping, non-empty ranges inside a text
/// of length `len`.
pub open spec fn spans_wf(spans: Seq<(usize, usize)>, len: int) -> bool {
    &&& forall|i: int| 0 <= i < spans.len()
        ==> (#[trigger] spans[i]).0 <= spans[i].1 <= len
    &&& forall|i: int| 0 <= i < spans.len() - 1
        ==> (#[trigger] spans[i]).1 <= spans[i + 1].0
}

/// Relies on linkify's LinkFinder::links: each returned span is a
/// byte range of the text, and the finder walks the text left to
/// right, so spans are ordered and do not overlap.
#[verifier::external_body]
fn find_links(text: &str) -> (r: Vec<(usize, usize)>)
    ensures
        r@ == link_spans_of(text.spec_bytes()),
        spans_wf(r@, text.spec_bytes().len() as int),
{
    let finder = linkify::LinkFinder::new();
    finder.links(text).map(|l| (l.start(), l.end())).collect()
}

/// The text with each span replaced by the matching replacement,
/// starting at `from`.
pub open spec fn spec_splice(
    text: Seq<u8>,
    spans: Seq<(usize, usize)>,
    repls: Seq<Seq<u8>>,
    from: int,
) -> Seq<u8>
    decreases spans.len(),
{
    if spans.len() == 0 {
        text.skip(from)
    } else {
        text.subrange(from, spans[0].0 as int) + repls[0]
            + spec_splice(text, spans.drop_first(), repls.drop_first(), spans[0].1 as int)
    }
}

/// Replaces every span of `text` with the matching replacement.
pub fn splice_links(text: &Vec<u8>, spans: &Vec<(usize, usize)>, repls: &Vec<Vec<u8>>) -> (r:
    Vec<u8>)
    requires
        spans_wf(spans@, text@.len() as int),
        repls@.len() == spans@.len(),
    ensures
        r@ == spec_splice(text@, spans@, repls.deep_view(), 0),
{
    let mut out: Vec<u8> = Vec::new();
    let mut cur: usize = 0;
    let n = spans.len();
    let mut i: usize = 0;
    proof {
        assert(spans@.skip(0) =~= spans@);
        assert(repls.deep_view().skip(0) =~= repls.deep_view());
        assert forall|j: int| 0 <= j < repls@.len() implies
            repls.deep_view()[j] == repls@[j]@ by {
            assert(repls@[j].deep_view() =~= repls@[j]@);
        }
    }
    while i < n
        invariant
            0 <= i <= n,
            n == spans@.len(),
            repls.deep_view().len() == n,
            forall|j: int| 0 <= j < n ==> repls.deep_view()[j] == repls@[j]@,
            spans_wf(spans@, text@.len() as int),
            cur == (if i == 0 { 0 } else { spans@[i - 1].1 }),
            cur <= text@.len(),
            i < n ==> cur <= spans@[i as int].0,
            out@ + spec_splice(text@, spans@.skip(i as int), repls.deep_view().skip(i as int),
                cur as int) =~= spec_splice(text@, spans@, repls.deep_view(), 0),
        decreases n - i,
    {
        let start = spans[i].0;
        let end = spans[i].1;
        proof {
            assert(spans@.skip(i as int)[0] == spans@[i as int]);
            assert(spans@.skip(i as int).drop_first() =~= spans@.skip(i + 1));
            assert(repls.deep_view().skip(i as int)[0] == repls.deep_view()[i as int]);
            assert(repls.deep_view()[i as int] == repls@[i as int]@);
            assert(repls.deep_view().skip(i as int).drop_first()
                =~= repls.deep_view().skip(i + 1));
        }
        let ghost out_start = out@;
        let mut k = cur;
        while k < start
            invariant
                cur <= k <= start,
                start <= text@.len(),
                n == spans@.len(),
                i < n,
                start == spans@[i as int].0,
                out@ =~= out_start + text@.subrange(cur as int, k as int),
            decreases start - k,
        {
            out.push(text[k]);
            proof {
                assert(text@.subrange(cur as int, k + 1)
                    =~= text@.subrange(cur as int, k as int).push(text@[k as int]));
            }
            k += 1;
        }
        let repl = &repls[i];
        let m = repl.len();
        let ghost out_mid = out@;
        let mut k2: usize = 0;
        while k2 < m
            invariant
                0 <= k2 <= m,
                m == repl@.len(),
                out@ =~= out_mid + repl@.subrange(0, k2 as int),
            decreases m - k2,
        {
            out.push(repl[k2]);
            proof {
                assert(repl@.subrange(0, k2 + 1)
                    =~= repl@.subrange(0, k2 as int).push(repl@[k2 as int]));
            }
            k2 += 1;
        }
        proof {
            assert(repl@.subrange(0, m as int) =~= repl@);
            assert(out@ =~= out_start + text@.subrange(cur as int, start as int) + repls@[
                i as int]@);
            if i + 1 < n {
                assert(spans@[i as int].1 <= spans@[i + 1].0);
            }
        }
        cur = end;
        i += 1;
    }
    let len = text.len();
    let ghost out_tail = out@;
    let mut k = cur;
    while k < len
        invariant
            cur <= k <= len,
            len == text@.len(),
            out@ =~= out_tail + text@.subrange(cur as int, k as int),
        decreases len - k,
    {
        out.push(text[k]);
        proof {
            assert(text@.subrange(cur as int, k + 1)
                =~= text@.subrange(cur as int, k as int).push(text@[k as int]));
        }
        k += 1;
    }
    proof {
        assert(spans@.skip(n as int).len() == 0);
        assert(text@.subrange(cur as int, len as int) =~= text@.skip(cur as int));
        assert(out@ =~= spec_splice(text@, spans@, repls.deep_view(), 0));
    }
    out
}

/// The characters String::from_utf8_lossy reads from a byte sequence.
pub uninterp spec fn lossy_utf8_of(bytes: Seq<u8>) -> Seq<char>;

/// Relies on String::from_utf8_lossy: a function of the bytes alone;
/// valid UTF-8 comes back unchanged.
#[verifier::external_body]
fn bytes_to_string_lossy(bytes: &Vec<u8>) -> (r: String)
    ensures
        r@ == lossy_utf8_of(bytes@),
{
    String::from_utf8_lossy(bytes.as_slice()).into_owned()
}

/// The links of a text: their byte spans and their bytes, for the
/// caller to resolve each to its final destination.
pub fn extract_links(text: &str) -> (r: (Vec<(usize, usize)>, Vec<Vec<u8>>))
    ensures
        r.0@ == link_spans_of(text.spec_bytes()),
        spans_wf(r.0@, text.spec_bytes().len() as int),
        r.1@.len() == r.0@.len(),
        forall|i: int| 0 <= i < r.0@.len()
            ==> (#[trigger] r.1@[i])@ == text.spec_bytes().subrange(
                r.0@[i].0 as int, r.0@[i].1 as int),
{
    let bytes = text.as_bytes_vec();
    let spans = find_links(text);
    let mut links: Vec<Vec<u8>> = Vec::new();
    let n = spans.len();
    let mut i: usize = 0;
    while i < n
        invariant
            0 <= i <= n,
            n == spans@.len(),
            bytes@ == text.spec_bytes(),
            spans_wf(spans@, bytes@.len() as int),
            links@.len() == i,
            forall|j: int| 0 <= j < i
                ==> (#[trigger] links@[j])@ == bytes@.subrange(
                    spans@[j].0 as int, spans@[j].1 as int),
        decreases n - i,
    {
        let start = spans[i].0;
        let end = spans[i].1;
        let mut link: Vec<u8> = Vec::new();
        let mut k = start;
        while k < end
            invariant
                start <= k <= end,
                end <= bytes@.len(),
                link@ =~= bytes@.subrange(start as int, k as int),
            decreases end - k,
        {
            link.push(bytes[k]);
            proof {
                assert(bytes@.subrange(start as int, k + 1)
                    =~= bytes@.subrange(start as int, k as int).push(bytes@[k as int]));
            }
            k += 1;
        }
        links.push(link);
        i += 1;
    }
    (spans, links)
}

/// Rewrites every link of `text` to its resolved replacement, given one
/// replacement per link in order; `None` exactly when the number of
/// replacements does not match the number of links.
pub fn rewrite_links(text: &str, finals: &Vec<Vec<u8>>) -> (r: Option<String>)
    ensures
        finals@.len() == link_spans_of(text.spec_bytes()).len() ==> r.is_some()
            && r.unwrap()@ == lossy_utf8_of(spec_splice(text.spec_bytes(),
            link_spans_of(text.spec_bytes()), finals.deep_view(), 0)),
        finals@.len() != link_spans_of(text.spec_bytes()).len() ==> r.is_none(),
{
    let bytes = text.as_bytes_vec();
    let spans = find_links(text);
    if finals.len() != spans.len() {
        return None;
    }
    let spliced = splice_links(&bytes, &spans, finals);
    Some(bytes_to_string_lossy(&spliced))
}

} // verus!
