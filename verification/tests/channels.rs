use std::collections::hash_map::DefaultHasher;
use std::hash::{Hash, Hasher};

use omniget::channels::{add, add_under, clock_ms, default_interval, default_true, get};
use omniget::channels::{id_for_hash, id_for_url, list, now_ms, record_poll, record_poll_at};
use omniget::channels::{remove, restore, snapshot, store, update};
use omniget::channels::{ChannelFollow, ChannelStore, CHANNELS_FILE, MAX_SEEN_IDS};

fn ids(names: &[&str]) -> Vec<String> {
    names.iter().map(|n| n.to_string()).collect()
}

fn numbered(from: usize, to: usize) -> Vec<String> {
    (from..to).map(|n| format!("s{}", n)).collect()
}

fn followed(store: &mut ChannelStore, id: &str, now: u64) -> ChannelFollow {
    add_under(
        store,
        id.to_string(),
        format!("https://x.test/{}", id),
        "Title".to_string(),
        now,
    )
}

#[test]
fn id_is_stable_and_trimmed() {
    assert_eq!(
        id_for_url("https://x.test/c"),
        id_for_url("  https://x.test/c  ")
    );
    assert_ne!(
        id_for_url("https://x.test/a"),
        id_for_url("https://x.test/b")
    );
    assert!(id_for_url("https://x.test/c").starts_with("ch"));
}

#[test]
fn id_is_the_hash_of_the_trimmed_address() {
    let mut hasher = DefaultHasher::new();
    "https://x.test/c".hash(&mut hasher);
    let expected = format!("ch{:016x}", hasher.finish());
    assert_eq!(id_for_url("\t https://x.test/c\u{2003}\n"), expected);
    assert_eq!(expected.len(), 18);
    let digits = id_for_url("https://x.test/c")[2..].to_string();
    assert!(digits.chars().all(|c| matches!(c, '0'..='9' | 'a'..='f')));
}

#[test]
fn id_of_a_hash_has_sixteen_digits() {
    assert_eq!(id_for_hash(0), "ch0000000000000000");
    assert_eq!(id_for_hash(0x1f), "ch000000000000001f");
    assert_eq!(id_for_hash(u64::MAX), "chffffffffffffffff");
    assert_eq!(id_for_hash(0x0123_4567_89ab_cdef), "ch0123456789abcdef");
}

#[test]
fn defaults_of_a_channel() {
    assert!(default_true());
    assert_eq!(default_interval(), 60);
    assert_eq!(CHANNELS_FILE, "channels.json");
}

#[test]
fn clock_is_cut_to_its_low_bits() {
    assert_eq!(clock_ms(None), 0);
    assert_eq!(clock_ms(Some(1_700_000_000_000)), 1_700_000_000_000);
    assert_eq!(clock_ms(Some((1u128 << 64) + 7)), 7);
}

#[test]
fn clock_runs() {
    let first = now_ms();
    assert!(first > 1_500_000_000_000);
    assert!(now_ms() >= first);
}

#[test]
fn a_fresh_channel_has_the_defaults() {
    let mut s = store();
    let before = now_ms();
    let ch = add(&mut s, "  https://x.test/c ".to_string(), "C".to_string());
    assert_eq!(ch.id, id_for_url("https://x.test/c"));
    assert_eq!(ch.url, "https://x.test/c");
    assert_eq!(ch.title, "C");
    assert!(ch.added_at_ms >= before);
    assert_eq!(ch.last_checked_ms, None);
    assert!(ch.seen_ids.is_empty());
    assert!(ch.enabled);
    assert!(!ch.auto_download);
    assert_eq!(ch.interval_minutes, 60);
    assert_eq!(get(&s, &ch.id).unwrap().title, "C");
}

#[test]
fn following_again_changes_the_title_alone() {
    let mut s = store();
    let first = followed(&mut s, "a", 1);
    update(&mut s, "a", Some(false), None, Some(90));
    let same = add_under(&mut s, "a".to_string(), "other".to_string(), String::new(), 2);
    assert_eq!(same.title, "Title");
    assert_eq!(same.added_at_ms, 1);
    assert_eq!(same.url, first.url);
    assert!(!same.enabled);
    assert_eq!(same.interval_minutes, 90);
    let renamed = add_under(&mut s, "a".to_string(), "other".to_string(), "New".to_string(), 3);
    assert_eq!(renamed.title, "New");
    assert_eq!(renamed.url, first.url);
    assert_eq!(list(&s).len(), 1);
}

#[test]
fn unfollowing_undoes_following() {
    let mut s = store();
    followed(&mut s, "a", 1);
    followed(&mut s, "b", 2);
    assert!(remove(&mut s, "b"));
    assert!(!remove(&mut s, "b"));
    assert!(get(&s, "b").is_none());
    assert!(get(&s, "a").is_some());
}

#[test]
fn channels_are_listed_in_the_order_added() {
    let mut s = store();
    followed(&mut s, "b", 30);
    followed(&mut s, "c", 10);
    followed(&mut s, "a", 20);
    let found: Vec<String> = list(&s).into_iter().map(|c| c.id).collect();
    assert_eq!(found, ids(&["c", "a", "b"]));
    assert!(list(&store()).is_empty());
}

#[test]
fn what_is_saved_is_loaded() {
    let mut s = store();
    followed(&mut s, "b", 30);
    followed(&mut s, "a", 20);
    record_poll_at(&mut s, "a", &ids(&["v1"]), 40);
    let mut copy = store();
    followed(&mut copy, "gone", 1);
    restore(&mut copy, snapshot(&s));
    assert!(get(&copy, "gone").is_none());
    assert_eq!(list(&copy).len(), 2);
    let a = get(&copy, "a").unwrap();
    assert_eq!(a.seen_ids, ids(&["v1"]));
    assert_eq!(a.last_checked_ms, Some(40));
    assert_eq!(get(&copy, "b").unwrap().added_at_ms, 30);
}

#[test]
fn of_two_channels_with_one_id_the_later_is_loaded() {
    let mut s = store();
    let mut first = followed(&mut s, "a", 1);
    let second = first.clone();
    first.title = "First".to_string();
    restore(&mut s, vec![first, second]);
    assert_eq!(get(&s, "a").unwrap().title, "Title");
    assert_eq!(list(&s).len(), 1);
}

#[test]
fn settings_change_as_far_as_given() {
    let mut s = store();
    followed(&mut s, "a", 1);
    let ch = update(&mut s, "a", None, Some(true), None).unwrap();
    assert!(ch.enabled);
    assert!(ch.auto_download);
    assert_eq!(ch.interval_minutes, 60);
    assert_eq!(update(&mut s, "a", None, None, Some(0)).unwrap().interval_minutes, 5);
    assert_eq!(update(&mut s, "a", None, None, Some(5)).unwrap().interval_minutes, 5);
    assert_eq!(update(&mut s, "a", None, None, Some(6)).unwrap().interval_minutes, 6);
    let same = update(&mut s, "a", None, None, None).unwrap();
    assert!(same.auto_download);
    assert_eq!(same.interval_minutes, 6);
    assert!(update(&mut s, "none", Some(true), None, None).is_none());
}

#[test]
fn the_first_poll_sets_the_baseline() {
    let mut s = store();
    followed(&mut s, "a", 1);
    assert!(record_poll_at(&mut s, "a", &ids(&["v1", "v2", "v1"]), 5).is_empty());
    let ch = get(&s, "a").unwrap();
    assert_eq!(ch.seen_ids, ids(&["v1", "v2"]));
    assert_eq!(ch.last_checked_ms, Some(5));
}

#[test]
fn a_later_poll_reports_what_is_new() {
    let mut s = store();
    followed(&mut s, "a", 1);
    record_poll_at(&mut s, "a", &ids(&["v1"]), 5);
    let new = record_poll_at(&mut s, "a", &ids(&["v3", "v1", "v2", "v3"]), 6);
    assert_eq!(new, ids(&["v3", "v2", "v3"]));
    assert_eq!(get(&s, "a").unwrap().seen_ids, ids(&["v1", "v3", "v2"]));
    assert!(record_poll_at(&mut s, "a", &ids(&["v3", "v1", "v2"]), 7).is_empty());
    assert!(record_poll_at(&mut s, "none", &ids(&["v9"]), 8).is_empty());
}

#[test]
fn polling_part_again_changes_nothing() {
    let mut s = store();
    followed(&mut s, "a", 1);
    record_poll_at(&mut s, "a", &ids(&["v1"]), 5);
    record_poll_at(&mut s, "a", &ids(&["v1", "v2", "v3"]), 6);
    assert!(record_poll_at(&mut s, "a", &ids(&["v3", "v2"]), 7).is_empty());
    let ch = get(&s, "a").unwrap();
    assert_eq!(ch.seen_ids, ids(&["v1", "v2", "v3"]));
    assert_eq!(ch.last_checked_ms, Some(7));
}

#[test]
fn a_store_stays_sound() {
    let mut s = store();
    let id = add(&mut s, " https://x.test/c ".to_string(), "C".to_string()).id;
    add(&mut s, "https://x.test/c\n".to_string(), String::new());
    update(&mut s, &id, Some(false), None, Some(1));
    record_poll(&mut s, &id, &numbered(0, 400));
    record_poll(&mut s, &id, &numbered(200, 700));
    let other = add(&mut s, "https://x.test/d".to_string(), String::new()).id;
    assert!(remove(&mut s, &other));
    let all = list(&s);
    assert_eq!(all.len(), 1);
    let ch = &all[0];
    assert_eq!(ch.url, ch.url.trim());
    assert_eq!(ch.id, id_for_url(&ch.url));
    assert_eq!(ch.interval_minutes, 5);
    assert_eq!(ch.seen_ids, numbered(200, 700));
}

#[test]
fn a_poll_is_recorded_now() {
    let mut s = store();
    followed(&mut s, "a", 1);
    let before = now_ms();
    record_poll(&mut s, "a", &ids(&["v1"]));
    assert_eq!(record_poll(&mut s, "a", &ids(&["v1", "v2"])), ids(&["v2"]));
    assert!(get(&s, "a").unwrap().last_checked_ms.unwrap() >= before);
    assert!(record_poll(&mut s, "none", &ids(&["v2"])).is_empty());
}

#[test]
fn the_oldest_ids_are_forgotten() {
    let mut s = store();
    followed(&mut s, "a", 1);
    record_poll_at(&mut s, "a", &numbered(0, 503), 5);
    let seen = get(&s, "a").unwrap().seen_ids;
    assert_eq!(seen.len(), MAX_SEEN_IDS);
    assert_eq!(seen, numbered(3, 503));
}

#[test]
fn a_forgotten_id_is_reported_again() {
    let mut s = store();
    followed(&mut s, "a", 1);
    record_poll_at(&mut s, "a", &numbered(0, 500), 5);
    let fetched = ids(&["s0", "x"]);
    assert_eq!(record_poll_at(&mut s, "a", &fetched, 6), ids(&["x"]));
    assert_eq!(record_poll_at(&mut s, "a", &fetched, 7), ids(&["s0"]));
}
