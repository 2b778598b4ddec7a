use dexporter::clock::Ts;
use dexporter::ids::U64ReprStr;
use dexporter::merge::{is_duplicate, lookup_user, merge_all, merge_candidate, synthesize, TempMessage};
use dexporter::store::ParsedDex;
use dexporter::types::{Author, Channel, DMChannel, Message};

fn dm_channel(id: u64) -> Channel {
    Channel::DMChannel(DMChannel { kind: 1, id: U64ReprStr(id), last_message_id: None, recipients: vec![] })
}

fn msg(id: u64, secs: i64, millis: u32, content: &str) -> Message {
    Message {
        id: U64ReprStr(id),
        kind: 0,
        timestamp: Some(Ts { secs, millis }),
        content: Some(String::from(content)),
        author: Author {
            username: String::from("alice"),
            avatar: None,
            id: String::from("42"),
            global_name: None,
        },
        attachments: vec![],
        edited_timestamp: None,
        embeds: vec![],
        pinned: None,
    }
}

fn cand(secs: i64, millis: u32, user: &str, text: &str) -> TempMessage {
    TempMessage {
        timestamp: Ts { secs, millis },
        username: String::from(user),
        text: String::from(text),
        attachments: vec![],
    }
}

#[test]
fn dedup_window_same_content_within_second() {
    let mut store = ParsedDex::new(dm_channel(1));
    let t = 1000i64;
    store.insert_or_update(msg(1, t, 0, "hello"));
    // same content, 0.9 seconds later: same whole second, a duplicate
    let dup = cand(t, 900, "alice", "hello");
    assert!(is_duplicate(&store, &dup));
    let added = merge_candidate(&mut store, dup, String::from("42"));
    assert!(!added);
    assert_eq!(store.len(), 1);
    // different content at the same timestamp is merged in
    let other = cand(t, 0, "alice", "hello!");
    assert!(!is_duplicate(&store, &other));
    let added = merge_candidate(&mut store, other, String::from("42"));
    assert!(added);
}

#[test]
fn dedup_requires_same_whole_second() {
    let mut store = ParsedDex::new(dm_channel(2));
    store.insert_or_update(msg(1, 1000, 0, "hello"));
    // 1.0 seconds later is a different whole second: not a duplicate
    let near = cand(1001, 0, "alice", "hello");
    assert!(!is_duplicate(&store, &near));
}

#[test]
fn concrete_import_scenario() {
    // store holds 10:00:00 "hi" and 10:00:05 "yo"
    let base = 36000i64;
    let mut store = ParsedDex::new(dm_channel(3));
    store.insert_or_update(msg(1, base, 0, "hi"));
    store.insert_or_update(msg(2, base + 5, 0, "yo"));
    let mapping = vec![(String::from("alice"), String::from("42"))];
    let cands = vec![cand(base, 0, "alice", "hi"), cand(base + 10, 0, "alice", "bye")];
    let added = merge_all(&mut store, cands, &mapping);
    assert_eq!(added, 1);
    assert_eq!(store.len(), 3);
    // the synthesized message lands after the 10:00:05 entry
    assert_eq!(store.get(2).content.clone().unwrap(), "bye");
    assert_eq!(store.get(2).timestamp.as_ref().unwrap().secs, base + 10);
    assert_eq!(store.get(2).id, U64ReprStr(0));
    assert_eq!(store.get(2).author.id, "42");
}

#[test]
fn reimporting_the_same_log_adds_nothing() {
    let mut store = ParsedDex::new(dm_channel(4));
    let mapping = vec![(String::from("alice"), String::from("42"))];
    let log = || vec![cand(100, 0, "alice", "one"), cand(200, 0, "alice", "two")];
    let first = merge_all(&mut store, log(), &mapping);
    assert_eq!(first, 2);
    let second = merge_all(&mut store, log(), &mapping);
    assert_eq!(second, 0);
    assert_eq!(store.len(), 2);
}

#[test]
fn synthesized_message_fields() {
    let mut c = cand(500, 0, "carol", "look");
    c.attachments = vec![
        String::from("https://cdn.discordapp.com/attachments/9/2/b.png"),
        String::from("https://cdn.discordapp.com/attachments/9/1/a.png"),
    ];
    let m = synthesize(c, String::from("77"));
    assert_eq!(m.id, U64ReprStr(0));
    assert_eq!(m.kind, 0);
    assert_eq!(m.timestamp.unwrap(), Ts { secs: 500, millis: 0 });
    assert_eq!(m.content.unwrap(), "look");
    assert_eq!(m.author.username, "carol");
    assert_eq!(m.author.id, "77");
    assert_eq!(m.attachments.len(), 2);
    assert_eq!(m.attachments[0].url, "https://cdn.discordapp.com/attachments/9/2/b.png");
    assert_eq!(m.attachments[0].id, "0");
    assert_eq!(m.attachments[0].filename, "");
    assert!(m.attachments[0].size.is_none());
    assert!(m.embeds.is_empty());
    assert!(m.pinned.is_none());
}

#[test]
fn lookup_user_takes_first_match() {
    let map = vec![
        (String::from("alice"), String::from("1")),
        (String::from("bob"), String::from("2")),
        (String::from("alice"), String::from("3")),
    ];
    assert_eq!(lookup_user(&map, &String::from("alice")), Some(String::from("1")));
    assert_eq!(lookup_user(&map, &String::from("bob")), Some(String::from("2")));
    assert_eq!(lookup_user(&map, &String::from("carol")), None);
}

#[test]
fn stored_message_without_content_never_matches() {
    let mut store = ParsedDex::new(dm_channel(5));
    let mut m = msg(1, 100, 0, "x");
    m.content = None;
    store.insert_or_update(m);
    assert!(!is_duplicate(&store, &cand(100, 0, "alice", "x")));
}
