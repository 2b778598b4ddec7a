use dexporter::clock::Ts;
use dexporter::fetch::{RetryDecision, RetryState, MAX_ATTEMPTS};
use dexporter::ids::U64ReprStr;
use dexporter::store::ParsedDex;
use dexporter::sync::{store_path, SyncAction, SyncDriver};
use dexporter::types::{Author, Channel, DMChannel, Message, TextChannel};

fn dm_channel(id: u64) -> Channel {
    Channel::DMChannel(DMChannel { kind: 1, id: U64ReprStr(id), last_message_id: None, recipients: vec![] })
}

fn msg(id: u64, secs: i64, content: &str) -> Message {
    Message {
        id: U64ReprStr(id),
        kind: 0,
        timestamp: Some(Ts { secs, millis: 0 }),
        content: Some(String::from(content)),
        author: Author {
            username: String::from("bob"),
            avatar: None,
            id: String::from("7"),
            global_name: None,
        },
        attachments: vec![],
        edited_timestamp: None,
        embeds: vec![],
        pinned: None,
    }
}

/// A fetcher stub with fixed page sizes, counting how often it is called.
struct StubFetcher {
    sizes: Vec<usize>,
    calls: usize,
    next_id: u64,
}

impl StubFetcher {
    fn fetch(&mut self, _after: u64) -> Vec<Message> {
        let size = self.sizes[self.calls];
        self.calls += 1;
        let mut page = vec![];
        for _ in 0..size {
            self.next_id += 1;
            page.push(msg(self.next_id, self.next_id as i64, "m"));
        }
        page
    }
}

#[test]
fn pagination_terminates_after_four_fetches() {
    let mut fetcher = StubFetcher { sizes: vec![100, 100, 37, 0], calls: 0, next_id: 0 };
    let mut driver = SyncDriver::start(ParsedDex::new(dm_channel(1)));
    loop {
        let page = fetcher.fetch(driver.cursor);
        match driver.on_page(page) {
            SyncAction::Done => break,
            SyncAction::Continue { .. } => {}
        }
    }
    assert_eq!(fetcher.calls, 4);
    assert_eq!(driver.store.len(), 237);
    assert!(driver.done);
}

#[test]
fn cursor_starts_at_last_stored_id_and_advances() {
    let mut store = ParsedDex::new(dm_channel(2));
    store.insert_or_update(msg(11, 10, "a"));
    store.insert_or_update(msg(27, 20, "b"));
    let mut driver = SyncDriver::start(store);
    assert_eq!(driver.cursor, 27);
    assert!(driver.should_skip(Some(27)));
    assert!(!driver.should_skip(Some(28)));
    assert!(!driver.should_skip(None));
    let action = driver.on_page(vec![msg(90, 30, "c"), msg(35, 25, "d")]);
    assert_eq!(driver.cursor, 90);
    assert_eq!(action, SyncAction::Continue { after: 90, checkpoint: false });
}

#[test]
fn empty_store_cursor_is_zero() {
    let driver = SyncDriver::start(ParsedDex::new(dm_channel(3)));
    assert_eq!(driver.cursor, 0);
}

#[test]
fn merge_absorbs_overlapping_pages() {
    let mut driver = SyncDriver::start(ParsedDex::new(dm_channel(4)));
    driver.on_page(vec![msg(1, 10, "a"), msg(2, 20, "b")]);
    driver.on_page(vec![msg(2, 20, "b2"), msg(3, 30, "c")]);
    assert_eq!(driver.store.len(), 3);
    assert_eq!(driver.store.get(1).content.clone().unwrap(), "b2");
}

#[test]
fn checkpoint_every_hundred_pages() {
    let mut driver = SyncDriver::start(ParsedDex::new(dm_channel(5)));
    let mut checkpoints = 0;
    for i in 0..250u64 {
        match driver.on_page(vec![msg(i + 1, i as i64, "x")]) {
            SyncAction::Continue { checkpoint, .. } => {
                if checkpoint {
                    checkpoints += 1;
                    assert!(driver.pages % 100 == 0);
                }
            }
            SyncAction::Done => unreachable!(),
        }
    }
    assert_eq!(checkpoints, 2);
}

#[test]
fn retry_three_failures_then_success() {
    let mut retry = RetryState::new();
    let mut attempts = 0;
    let outcomes = [false, false, false, true];
    let mut succeeded = false;
    for ok in outcomes {
        attempts += 1;
        if ok {
            succeeded = true;
            break;
        }
        match retry.on_failure() {
            RetryDecision::RetryAfter(d) => assert_eq!(d, 3 * retry.attempts as u64),
            RetryDecision::GiveUp => panic!("gave up too early"),
        }
    }
    assert!(succeeded);
    assert_eq!(attempts, 4);
}

#[test]
fn retry_gives_up_after_exactly_four_attempts() {
    let mut retry = RetryState::new();
    let mut attempts = 0;
    let mut terminal = false;
    while attempts < 5 {
        attempts += 1;
        // every attempt fails
        match retry.on_failure() {
            RetryDecision::RetryAfter(_) => {}
            RetryDecision::GiveUp => {
                terminal = true;
                break;
            }
        }
    }
    assert!(terminal);
    assert_eq!(attempts, MAX_ATTEMPTS as usize);
    assert_eq!(attempts, 4);
}

#[test]
fn retry_backoff_is_linear() {
    let mut retry = RetryState::new();
    assert_eq!(retry.on_failure(), RetryDecision::RetryAfter(3));
    assert_eq!(retry.on_failure(), RetryDecision::RetryAfter(6));
    assert_eq!(retry.on_failure(), RetryDecision::RetryAfter(9));
    assert_eq!(retry.on_failure(), RetryDecision::GiveUp);
}

#[test]
fn store_paths_by_channel_kind() {
    let dm = dm_channel(1234);
    assert_eq!(store_path(&dm), "db/DMs/1234.dex");
    let guild = Channel::TextChannel(TextChannel {
        kind: 0,
        id: U64ReprStr(99),
        guild_id: U64ReprStr(55),
        name: String::from("general"),
        parent_id: None,
        last_message_id: None,
        topic: None,
    });
    assert_eq!(store_path(&guild), "db/55/99.dex");
}
