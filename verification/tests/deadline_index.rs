use my_redis::expirations::Expirations;
use my_redis::order::text_less;

fn drain(index: &mut Expirations) -> Vec<(u128, String)> {
    let mut out = Vec::new();
    while index.first().is_some() {
        out.push(index.remove_first());
    }
    out
}

fn pair(when: u128, key: &str) -> (u128, String) {
    (when, key.to_string())
}

#[test]
fn text_order_is_the_order_of_the_bytes() {
    assert!(text_less("a", "b"));
    assert!(!text_less("b", "a"));
    assert!(!text_less("a", "a"));
    assert!(text_less("", "a"));
    assert!(!text_less("a", ""));
    assert!(!text_less("", ""));
    assert!(text_less("a", "ab"));
    assert!(!text_less("ab", "a"));
    assert!(text_less("Z", "a"));
    assert!(text_less("z", "\u{e9}"));
    for (a, b) in [("abc", "abd"), ("x", "xy"), ("10", "9"), ("k\u{e9}", "k\u{ea}")] {
        assert_eq!(text_less(a, b), a < b);
        assert_eq!(text_less(b, a), b < a);
    }
}

#[test]
fn index_keeps_deadlines_by_instant_and_then_by_key() {
    let mut index = Expirations::new();
    assert_eq!(index.first(), None);
    index.insert(30, "c".to_string());
    index.insert(10, "z".to_string());
    index.insert(20, "b".to_string());
    index.insert(10, "a".to_string());
    index.insert(20, "a".to_string());
    index.insert(10, "m".to_string());
    assert_eq!(index.first(), Some(10));
    assert_eq!(
        drain(&mut index),
        vec![
            pair(10, "a"),
            pair(10, "m"),
            pair(10, "z"),
            pair(20, "a"),
            pair(20, "b"),
            pair(30, "c"),
        ]
    );
    assert_eq!(index.first(), None);
}

#[test]
fn index_holds_each_deadline_once() {
    let mut index = Expirations::new();
    index.insert(5, "k".to_string());
    index.insert(5, "k".to_string());
    index.insert(5, "j".to_string());
    index.insert(5, "k".to_string());
    assert_eq!(drain(&mut index), vec![pair(5, "j"), pair(5, "k")]);
}

#[test]
fn index_removes_the_deadline_that_is_named() {
    let mut index = Expirations::new();
    index.insert(1, "a".to_string());
    index.insert(2, "b".to_string());
    index.insert(3, "c".to_string());
    index.remove(2, "b");
    index.remove(3, "a");
    index.remove(9, "c");
    assert_eq!(index.first(), Some(1));
    index.remove(1, "a");
    assert_eq!(index.first(), Some(3));
    assert_eq!(drain(&mut index), vec![pair(3, "c")]);
    index.remove(3, "c");
    assert_eq!(index.first(), None);
}
