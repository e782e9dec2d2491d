use piano_waterfall::text::{decimal, str_contains, str_eq, str_lt};

#[test]
fn contains_finds_runs_of_characters() {
    assert!(str_contains(" / Left Hand", "Left Hand"));
    assert!(str_contains("abc", ""));
    assert!(str_contains("", ""));
    assert!(!str_contains("", "a"));
    assert!(!str_contains("Lef", "Left"));
    assert!(str_contains("élan", "la"));
    assert!(!str_contains("abcabd", "abe"));
}

#[test]
fn decimal_renders_like_display() {
    for n in [0usize, 7, 9, 10, 11, 99, 100, 12345, usize::MAX] {
        assert_eq!(decimal(n), n.to_string());
    }
}

#[test]
fn lt_orders_like_string_comparison() {
    let words = ["", "a", "A", "ab", "b", "Zebra", "apple", "Äpfel", "é", "e", "ab c"];
    for x in words {
        for y in words {
            assert_eq!(str_lt(x, y), x < y, "{:?} < {:?}", x, y);
            assert_eq!(str_eq(x, y), x == y);
        }
    }
}
