use dexporter::clock::{epoch_day, ts_of_date_time, Date, Ts};
use dexporter::ids::{parse_u64, u64_to_string, U64ReprStr};
use dexporter::types::{order_guilds, Channel, DMChannel, Guild, GuildFolder, Settings, TextChannel, User};

fn chars(s: &str) -> Vec<char> {
    s.chars().collect()
}

#[test]
fn decimal_strings_round_trip() {
    for n in [0u64, 1, 9, 10, 99, 100, 12345, u64::MAX] {
        let s = u64_to_string(n);
        let parsed = parse_u64(&s.chars().collect());
        assert_eq!(parsed, Some(n));
    }
    assert_eq!(u64_to_string(0), "0");
    assert_eq!(u64_to_string(1050), "1050");
    assert_eq!(u64_to_string(u64::MAX), "18446744073709551615");
}

#[test]
fn decimal_parse_rejects_bad_input() {
    assert_eq!(parse_u64(&chars("")), None);
    assert_eq!(parse_u64(&chars("12a")), None);
    assert_eq!(parse_u64(&chars("-5")), None);
    assert_eq!(parse_u64(&chars(" 5")), None);
    assert_eq!(parse_u64(&chars("18446744073709551616")), None);
    assert_eq!(parse_u64(&chars("18446744073709551615")), Some(u64::MAX));
    assert_eq!(parse_u64(&chars("007")), Some(7));
}

#[test]
fn epoch_day_matches_known_dates() {
    assert_eq!(epoch_day(&Date { year: 1970, month: 1, day: 1 }), 0);
    assert_eq!(epoch_day(&Date { year: 1969, month: 12, day: 31 }), -1);
    assert_eq!(epoch_day(&Date { year: 2000, month: 3, day: 1 }), 11017);
    assert_eq!(epoch_day(&Date { year: 2019, month: 6, day: 7 }), 18054);
    assert_eq!(epoch_day(&Date { year: 1900, month: 1, day: 1 }), -25567);
}

#[test]
fn calendar_validity_follows_leap_years() {
    assert!(Date::from_ymd(2000, 2, 29).is_some());
    assert!(Date::from_ymd(1900, 2, 29).is_none());
    assert!(Date::from_ymd(2019, 2, 29).is_none());
    assert!(Date::from_ymd(2019, 13, 1).is_none());
    assert!(Date::from_ymd(2019, 0, 1).is_none());
    assert!(Date::from_ymd(2019, 4, 31).is_none());
    assert!(Date::from_ymd(2019, 4, 30).is_some());
    assert!(Date::from_ymd(400000, 1, 1).is_none());
}

#[test]
fn timestamps_combine_date_and_time() {
    let d = Date { year: 1970, month: 1, day: 1 };
    assert_eq!(ts_of_date_time(&d, 10, 0, 0), Ts { secs: 36000, millis: 0 });
    let later = Date { year: 1970, month: 1, day: 2 };
    assert_eq!(ts_of_date_time(&later, 0, 0, 1), Ts { secs: 86401, millis: 0 });
}

fn user(name: &str) -> User {
    User {
        id: U64ReprStr(1),
        username: String::from(name),
        discriminator: String::from("0001"),
        avatar: None,
    }
}

#[test]
fn display_of_channels() {
    let dm = Channel::DMChannel(DMChannel {
        kind: 1,
        id: U64ReprStr(5),
        last_message_id: None,
        recipients: vec![user("alice"), user("bob")],
    });
    assert_eq!(dm.display(), "#DM(alice, bob)");
    let text = Channel::TextChannel(TextChannel {
        kind: 0,
        id: U64ReprStr(6),
        guild_id: U64ReprStr(7),
        name: String::from("general"),
        parent_id: None,
        last_message_id: None,
        topic: None,
    });
    assert_eq!(text.display(), "#general");
    let lonely = Channel::DMChannel(DMChannel {
        kind: 1,
        id: U64ReprStr(8),
        last_message_id: None,
        recipients: vec![],
    });
    assert_eq!(lonely.display(), "#DM()");
}

#[test]
fn channel_accessors() {
    let text = Channel::TextChannel(TextChannel {
        kind: 2,
        id: U64ReprStr(6),
        guild_id: U64ReprStr(7),
        name: String::from("voice"),
        parent_id: None,
        last_message_id: Some(U64ReprStr(31)),
        topic: None,
    });
    assert_eq!(text.id(), 6);
    assert!(!text.is_text());
    assert_eq!(text.last_message_id(), Some(31));
    let dm = Channel::DMChannel(DMChannel {
        kind: 1,
        id: U64ReprStr(5),
        last_message_id: None,
        recipients: vec![],
    });
    assert!(dm.is_text());
    assert_eq!(dm.last_message_id(), None);
}

fn guild(id: u64, name: &str) -> Guild {
    Guild { id: U64ReprStr(id), name: String::from(name), icon: None, owner: false }
}

#[test]
fn settings_flatten_folders_in_order() {
    let settings = Settings {
        guild_folders: vec![
            GuildFolder { guild_ids: vec![U64ReprStr(5), U64ReprStr(6)] },
            GuildFolder { guild_ids: vec![U64ReprStr(7)] },
        ],
    };
    assert_eq!(settings.guild_ids(), vec![5, 6, 7]);
}

#[test]
fn guilds_sort_by_settings_position_stably() {
    let settings = Settings {
        guild_folders: vec![GuildFolder { guild_ids: vec![U64ReprStr(5), U64ReprStr(6), U64ReprStr(7)] }],
    };
    let guilds = vec![guild(7, "c"), guild(5, "a"), guild(9, "unlisted")];
    let ordered = order_guilds(guilds, &settings);
    let names: Vec<&str> = ordered.iter().map(|g| g.name.as_str()).collect();
    // the unlisted guild keys as position zero, after "a" only by stability
    assert_eq!(names, vec!["a", "unlisted", "c"]);
}
