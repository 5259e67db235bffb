use omniget::order::{has_text, place_text, same_text, sort_texts, stable_order, Placement};
use omniget::strmap::StrMap;
use omniget::text::{decimal, ends_with_ignoring_ascii_case, hex, join, only_texts};

fn texts(list: &[&str]) -> Vec<String> {
    list.iter().map(|s| s.to_string()).collect()
}

#[test]
fn numbers_as_text() {
    assert_eq!(hex(0xbeef, 4), "beef");
    assert_eq!(hex(0xbeef, 6), "00beef");
    assert_eq!(hex(0x1beef, 4), "beef");
    assert_eq!(hex(7, 0), "");
    assert_eq!(decimal(0), "0");
    assert_eq!(decimal(10), "10");
    assert_eq!(decimal(u64::MAX), "18446744073709551615");
}

#[test]
fn hexadecimal_text_tells_numbers_apart() {
    assert_ne!(hex(0xfe, 2), hex(0xff, 2));
    assert_eq!(hex(0xff, 16).len(), 16);
}

#[test]
fn joined_text() {
    assert_eq!(join("ch", "01"), "ch01");
    assert_eq!(join("", ""), "");
}

#[test]
fn endings_without_regard_to_case() {
    assert!(ends_with_ignoring_ascii_case("a/B.PnG", ".png"));
    assert!(!ends_with_ignoring_ascii_case("a/b.png?x", ".png"));
    assert!(!ends_with_ignoring_ascii_case("png", ".png"));
    assert!(ends_with_ignoring_ascii_case("", ""));
}

#[test]
fn texts_among_optional_texts() {
    let list = vec![None, Some("b".to_string()), None, Some("a".to_string())];
    assert_eq!(only_texts(&list), texts(&["b", "a"]));
    assert!(only_texts(&vec![None]).is_empty());
}

#[test]
fn order_is_that_of_the_bytes() {
    assert_eq!(place_text("Z", "a"), Placement::Before);
    assert_eq!(place_text("a", "ab"), Placement::Before);
    assert_eq!(place_text("\u{ff}", "z"), Placement::After);
    assert_eq!(place_text("\u{e9}", "\u{e9}"), Placement::Same);
    assert!(same_text("x", "x"));
    assert!(!same_text("x", "X"));
}

#[test]
fn order_is_total_and_transitive() {
    let list = ["", "A", "a", "ab", "b", "\u{e9}", "\u{1f600}"];
    for (i, a) in list.iter().enumerate() {
        for (j, b) in list.iter().enumerate() {
            let expected = if i < j {
                Placement::Before
            } else if i == j {
                Placement::Same
            } else {
                Placement::After
            };
            assert_eq!(place_text(a, b), expected);
        }
    }
}

#[test]
fn membership_of_texts() {
    let list = texts(&["a", "b"]);
    assert!(has_text(&list, "b"));
    assert!(!has_text(&list, "c"));
    assert!(!has_text(&[], ""));
}

#[test]
fn sorting_keeps_every_text() {
    let list = texts(&["b", "a", "B", "a", ""]);
    assert_eq!(sort_texts(&list), texts(&["", "B", "a", "a", "b"]));
    let other = texts(&["a", "", "a", "b", "B"]);
    assert_eq!(sort_texts(&other), sort_texts(&list));
}

#[test]
fn sorting_is_stable() {
    let keys: Vec<u64> = vec![3, 1, 3, 2, 1];
    assert_eq!(stable_order(&keys), vec![1, 4, 3, 0, 2]);
}

#[test]
fn a_map_is_in_order_of_its_keys() {
    let mut m: StrMap<u64> = StrMap::new();
    m.insert("b".to_string(), 2);
    m.insert("a".to_string(), 1);
    m.insert("c".to_string(), 3);
    m.insert("b".to_string(), 4);
    assert_eq!(m.len(), 3);
    assert_eq!(m.entry(0), (&"a".to_string(), &1));
    assert_eq!(m.entry(1), (&"b".to_string(), &4));
    assert_eq!(m.get("b"), Some(&4));
    assert_eq!(m.get("d"), None);
    assert!(m.contains("c"));
    assert_eq!(m.remove("a"), Some(1));
    assert_eq!(m.remove("a"), None);
    let mut other: StrMap<u64> = StrMap::new();
    other.insert("c".to_string(), 3);
    other.insert("b".to_string(), 4);
    assert_eq!(m.into_entries(), other.into_entries());
}
