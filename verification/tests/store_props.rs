use dexporter::clock::Ts;
use dexporter::ids::U64ReprStr;
use dexporter::store::ParsedDex;
use dexporter::types::{Author, Channel, DMChannel, Message};

fn dm_channel(id: u64) -> Channel {
    Channel::DMChannel(DMChannel { kind: 1, id: U64ReprStr(id), last_message_id: None, recipients: vec![] })
}

fn msg(id: u64, secs: i64, millis: u32, content: &str) -> Message {
    Message {
        id: U64ReprStr(id),
        kind: 0,
        timestamp: Some(Ts { secs, millis }),
        content: Some(String::from(content)),
        author: Author {
            username: String::from("alice"),
            avatar: None,
            id: String::from("42"),
            global_name: None,
        },
        attachments: vec![],
        edited_timestamp: None,
        embeds: vec![],
        pinned: None,
    }
}

fn contents(store: &ParsedDex) -> Vec<(i64, String)> {
    let mut out = vec![];
    for i in 0..store.len() {
        let m = store.get(i);
        out.push((m.timestamp.as_ref().unwrap().secs, m.content.clone().unwrap()));
    }
    out
}

#[test]
fn insert_keeps_ascending_order() {
    let mut store = ParsedDex::new(dm_channel(1));
    store.insert_or_update(msg(3, 30, 0, "c"));
    store.insert_or_update(msg(1, 10, 0, "a"));
    store.insert_or_update(msg(2, 20, 0, "b"));
    assert_eq!(contents(&store), vec![(10, "a".to_string()), (20, "b".to_string()), (30, "c".to_string())]);
    assert!(store.check_sorted());
}

#[test]
fn idempotent_merge_second_wins() {
    let mut store = ParsedDex::new(dm_channel(1));
    store.insert_or_update(msg(5, 100, 0, "first"));
    store.insert_or_update(msg(6, 100, 0, "second"));
    assert_eq!(store.len(), 1);
    assert_eq!(store.get(0).content.clone().unwrap(), "second");
    assert_eq!(store.get(0).id, U64ReprStr(6));
}

#[test]
fn any_insert_order_gives_same_sequence() {
    let keys: Vec<i64> = vec![50, 10, 40, 20, 30];
    let mut sorted_in = ParsedDex::new(dm_channel(2));
    let mut shuffled_in = ParsedDex::new(dm_channel(2));
    let mut sorted_keys = keys.clone();
    sorted_keys.sort();
    for (i, k) in sorted_keys.iter().enumerate() {
        sorted_in.insert_or_update(msg(i as u64, *k, 0, &format!("m{k}")));
    }
    for (i, k) in keys.iter().enumerate() {
        shuffled_in.insert_or_update(msg(i as u64, *k, 0, &format!("m{k}")));
    }
    assert_eq!(contents(&sorted_in), contents(&shuffled_in));
}

#[test]
fn missing_timestamp_sorts_first() {
    let mut store = ParsedDex::new(dm_channel(3));
    store.insert_or_update(msg(1, 10, 0, "a"));
    let mut no_ts = msg(2, 0, 0, "none");
    no_ts.timestamp = None;
    store.insert_or_update(no_ts);
    assert_eq!(store.len(), 2);
    assert!(store.get(0).timestamp.is_none());
    assert_eq!(store.get(1).timestamp.as_ref().unwrap().secs, 10);
}

#[test]
fn millisecond_keys_are_distinct() {
    let mut store = ParsedDex::new(dm_channel(4));
    store.insert_or_update(msg(1, 10, 500, "late"));
    store.insert_or_update(msg(2, 10, 100, "early"));
    assert_eq!(store.len(), 2);
    assert_eq!(store.get(0).content.clone().unwrap(), "early");
    assert_eq!(store.get(1).content.clone().unwrap(), "late");
}

#[test]
fn lower_bound_finds_first_not_below() {
    let mut store = ParsedDex::new(dm_channel(5));
    for (i, s) in [10i64, 20, 30].iter().enumerate() {
        store.insert_or_update(msg(i as u64, *s, 0, "x"));
    }
    assert_eq!(store.lower_bound(&Some(Ts { secs: 15, millis: 0 })), 1);
    assert_eq!(store.lower_bound(&Some(Ts { secs: 20, millis: 0 })), 1);
    assert_eq!(store.lower_bound(&Some(Ts { secs: 35, millis: 0 })), 3);
    assert_eq!(store.lower_bound(&None), 0);
}

#[test]
fn check_sorted_rejects_out_of_order_keys() {
    let mut store = ParsedDex::new(dm_channel(6));
    store.insert_or_update(msg(1, 10, 0, "a"));
    assert!(store.check_sorted());
    let empty = ParsedDex::new(dm_channel(7));
    assert!(empty.check_sorted());
}
