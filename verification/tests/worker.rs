use tostr::bot::ConnectionStatus;
use tostr::twitter::{self, Tweet};

fn tweet(ts: u64, text: &str) -> Tweet {
    Tweet { timestamp: ts, tweet: text.to_string(), link: format!("https://t.example/{}", ts) }
}

#[test]
fn watermark_advances_on_success_even_when_empty() {
    let (next, events, status) = twitter::worker_cycle(100, 200, Ok(vec![]));
    assert_eq!(next, 200);
    assert!(events.is_empty());
    assert_eq!(status, ConnectionStatus::Success);
}

#[test]
fn watermark_stays_on_failure() {
    let (next, events, status) = twitter::worker_cycle(100, 200, Err("down".to_string()));
    assert_eq!(next, 100);
    assert!(events.is_empty());
    assert_eq!(status, ConnectionStatus::Failed);
}

#[test]
fn items_come_back_oldest_first() {
    // The feed hands items newest first.
    let fetched = vec![tweet(3, "three"), tweet(2, "two"), tweet(1, "one")];
    let (next, ordered, _) = twitter::worker_cycle(0, 10, Ok(fetched));
    assert_eq!(next, 10);
    let texts: Vec<&str> = ordered.iter().map(|t| t.tweet.as_str()).collect();
    assert_eq!(texts, vec!["one", "two", "three"]);
}

#[test]
fn tweet_event_content_and_tag() {
    let t = Tweet {
        timestamp: 17,
        tweet: "hello world".to_string(),
        link: "https://x.example/1".to_string(),
    };
    let draft = twitter::get_tweet_event(&t);
    assert_eq!(draft.kind, 1);
    assert_eq!(draft.content, "hello world ([source](https://x.example/1))");
    assert_eq!(draft.tags, vec![vec!["tweet_timestamp".to_string(), "17".to_string()]]);
}

#[test]
fn parse_tweets_reads_rows_and_skips_replies() {
    // 2022-01-02 03:04:05 UTC = 1641092645.
    let row = |date: &str, time: &str, zone: &str, text: &str| -> String {
        let mut fields = vec![""; 21];
        fields[3] = date;
        fields[4] = time;
        fields[5] = zone;
        fields[10] = text;
        fields[20] = "https://t.example/x";
        fields.join("\t")
    };
    let content = format!(
        "header\n{}\n{}\nshort\tline\n{}\n",
        row("2022-01-02", "03:04:05", "+0000", "a tweet"),
        row("2022-01-02", "03:04:06", "+0000", "@someone a reply"),
        row("not-a-date", "x", "y", "bad date"),
    );
    let tweets = twitter::parse_tweets(&content);
    assert_eq!(tweets.len(), 1);
    assert_eq!(tweets[0].timestamp, 1641092645);
    assert_eq!(tweets[0].tweet, "a tweet");
    assert_eq!(tweets[0].link, "https://t.example/x");
}

#[test]
fn extract_and_rewrite_links() {
    let text = "see https://t.example/abc end";
    let (spans, links) = twitter::extract_links(text);
    assert_eq!(spans.len(), 1);
    assert_eq!(links.len(), 1);
    assert_eq!(links[0], b"https://t.example/abc".to_vec());

    let finals = vec![b"https://final.example/long".to_vec()];
    let rewritten = twitter::rewrite_links(text, &finals).unwrap();
    assert_eq!(rewritten, "see https://final.example/long end");
    assert!(twitter::rewrite_links(text, &vec![]).is_none());
}

#[test]
fn rewrite_two_links() {
    let text = "a https://t.example/1 b https://t.example/2 c";
    let (spans, links) = twitter::extract_links(text);
    assert_eq!(spans.len(), 2);
    assert_eq!(links[0], b"https://t.example/1".to_vec());
    assert_eq!(links[1], b"https://t.example/2".to_vec());
    let finals = vec![b"X".to_vec(), b"YY".to_vec()];
    assert_eq!(twitter::rewrite_links(text, &finals).unwrap(), "a X b YY c");
}

#[test]
fn rewrite_without_links_keeps_text() {
    let text = "no links here";
    let (spans, _) = twitter::extract_links(text);
    assert!(spans.is_empty());
    assert_eq!(twitter::rewrite_links(text, &vec![]).unwrap(), text);
}

#[test]
fn profile_event_content() {
    let draft = twitter::profile_event("alice", "https://pic.example/a.jpg");
    assert_eq!(draft.kind, 0);
    assert!(draft.tags.is_empty());
    assert_eq!(
        draft.content,
        "{\"name\":\"tostr_alice\",\"about\":\"Tweets forwarded from https://twitter.com/alice by [tostr](https://github.com/slaninas/tostr) bot.\",\"picture\":\"https://pic.example/a.jpg\"}"
    );
    // The profile body is itself valid JSON.
    let v: serde_json::Value = serde_json::from_str(&draft.content).unwrap();
    assert_eq!(v["name"], "tostr_alice");
}
