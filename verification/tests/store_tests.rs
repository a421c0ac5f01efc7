use tweet_store::record::{Timestamp, Tweet};
use tweet_store::store::Tweets;

fn post(id: &str, message: &str, secs: i64, nanos: u32) -> Tweet {
    Tweet {
        id: String::from(id),
        message: String::from(message),
        created_at: Timestamp { secs, nanos },
    }
}

#[test]
fn new_store_is_empty() {
    let store = Tweets::new();
    assert_eq!(store.tweets.len(), 0);
}

#[test]
fn append_present_adds_one_record() {
    let mut store = Tweets::new();
    let r = store.append_if_present(Some(String::from("hi")));
    let r = r.expect("a record");
    assert_eq!(store.tweets.len(), 1);
    assert_eq!(store.tweets[0].message, "hi");
    assert_eq!(store.tweets[0].id, r.id);
    assert_eq!(r.message, "hi");
}

#[test]
fn append_absent_is_noop() {
    let mut store = Tweets::new();
    store.append_if_present(Some(String::from("only")));
    let before: Vec<String> = store.tweets.iter().map(|t| t.id.clone()).collect();
    let r = store.append_if_present(None);
    assert!(r.is_none());
    assert_eq!(store.tweets.len(), 1);
    let after: Vec<String> = store.tweets.iter().map(|t| t.id.clone()).collect();
    assert_eq!(before, after);
}

#[test]
fn append_absent_on_empty_then_snapshot_is_empty() {
    let mut store = Tweets::new();
    let r = store.append_if_present(None);
    assert!(r.is_none());
    let snap = store.snapshot_recent_first();
    assert!(snap.is_empty());
}

#[test]
fn two_appends_snapshot_most_recent_first() {
    let mut store = Tweets::new();
    store.append_if_present(Some(String::from("first")));
    store.append_if_present(Some(String::from("second")));
    let snap = store.snapshot_recent_first();
    assert_eq!(snap.len(), 2);
    assert_eq!(snap[0].message, "second");
    assert_eq!(snap[1].message, "first");
}

#[test]
fn snapshot_orders_by_timestamp_descending() {
    let store = Tweets {
        tweets: vec![
            post("a", "oldest", 10, 0),
            post("b", "newest", 30, 500),
            post("c", "middle", 20, 0),
        ],
    };
    let snap = store.snapshot_recent_first();
    let messages: Vec<&str> = snap.iter().map(|t| t.message.as_str()).collect();
    assert_eq!(messages, vec!["newest", "middle", "oldest"]);
    for pair in snap.windows(2) {
        let earlier = &pair[1].created_at;
        let later = &pair[0].created_at;
        assert!(
            earlier.secs < later.secs
                || (earlier.secs == later.secs && earlier.nanos <= later.nanos)
        );
    }
}

#[test]
fn snapshot_breaks_timestamp_ties_later_insertion_first() {
    let store = Tweets {
        tweets: vec![
            post("a", "tied one", 5, 7),
            post("b", "tied two", 5, 7),
            post("c", "tied three", 5, 7),
        ],
    };
    let snap = store.snapshot_recent_first();
    let messages: Vec<&str> = snap.iter().map(|t| t.message.as_str()).collect();
    assert_eq!(messages, vec!["tied three", "tied two", "tied one"]);
}

#[test]
fn snapshot_nanos_break_equal_seconds() {
    let store = Tweets {
        tweets: vec![post("a", "early", 5, 1), post("b", "late", 5, 2)],
    };
    let snap = store.snapshot_recent_first();
    let messages: Vec<&str> = snap.iter().map(|t| t.message.as_str()).collect();
    assert_eq!(messages, vec!["late", "early"]);
}

#[test]
fn snapshot_is_independent_copy() {
    let mut store = Tweets::new();
    store.append_if_present(Some(String::from("kept")));
    let mut snap = store.snapshot_recent_first();
    snap.clear();
    snap.push(post("z", "injected", 99, 0));
    assert_eq!(store.tweets.len(), 1);
    let again = store.snapshot_recent_first();
    assert_eq!(again.len(), 1);
    assert_eq!(again[0].message, "kept");
}

#[test]
fn snapshot_twice_is_identical() {
    let mut store = Tweets::new();
    store.append_if_present(Some(String::from("one")));
    store.append_if_present(Some(String::from("two")));
    store.append_if_present(Some(String::from("three")));
    let a = store.snapshot_recent_first();
    let b = store.snapshot_recent_first();
    assert_eq!(a.len(), b.len());
    for (x, y) in a.iter().zip(b.iter()) {
        assert_eq!(x.id, y.id);
        assert_eq!(x.message, y.message);
        assert_eq!(x.created_at.secs, y.created_at.secs);
        assert_eq!(x.created_at.nanos, y.created_at.nanos);
    }
}

#[test]
fn appended_records_have_distinct_ids() {
    let mut store = Tweets::new();
    for i in 0..10 {
        store.append_if_present(Some(format!("post {i}")));
    }
    let snap = store.snapshot_recent_first();
    assert_eq!(snap.len(), 10);
    for i in 0..snap.len() {
        for j in (i + 1)..snap.len() {
            assert_ne!(snap[i].id, snap[j].id);
        }
    }
}

#[test]
fn fifty_appends_give_fifty_distinct_records() {
    let mut store = Tweets::new();
    for _ in 0..50 {
        let r = store.append_if_present(Some(String::from("hello")));
        assert!(r.is_some());
    }
    let snap = store.snapshot_recent_first();
    assert_eq!(snap.len(), 50);
    let mut ids: Vec<String> = snap.iter().map(|t| t.id.clone()).collect();
    ids.sort();
    ids.dedup();
    assert_eq!(ids.len(), 50);
    for t in &snap {
        assert_eq!(t.message, "hello");
    }
}
