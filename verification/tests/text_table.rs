use ttcore::table::Table;
use ttcore::text::{i64_to_decimal, push_str, starts_with, trim_end_matches_char, trim_start_matches, u64_to_decimal, contains_str, contains_char};

#[test]
fn decimals() {
    assert_eq!(u64_to_decimal(0), "0");
    assert_eq!(u64_to_decimal(1234567890), "1234567890");
    assert_eq!(u64_to_decimal(u64::MAX), u64::MAX.to_string());
    assert_eq!(i64_to_decimal(-42), "-42");
    assert_eq!(i64_to_decimal(i64::MIN), i64::MIN.to_string());
}

#[test]
fn text_helpers() {
    let mut s = "ab".to_string();
    push_str(&mut s, "cd");
    assert_eq!(s, "abcd");
    assert!(starts_with("qemu-x", "qemu"));
    assert!(!starts_with("qem", "qemu"));
    assert!(contains_str("a-part2", "-part"));
    assert!(!contains_str("a-par", "-part"));
    assert!(contains_char("a@b", '@'));
    assert_eq!(trim_start_matches("xyxyz", "xy"), "z");
    assert_eq!(trim_start_matches("abc", ""), "abc");
    assert_eq!(trim_end_matches_char("a///", '/'), "a");
}

#[test]
fn table_insert_replace_remove() {
    let mut t: Table<String, u32> = Table::new();
    t.insert("a".to_string(), 1);
    t.insert("b".to_string(), 2);
    t.insert("a".to_string(), 3);
    assert_eq!(t.len(), 2);
    assert_eq!(t.key_at(0), "a");
    assert_eq!(*t.get(&"a".to_string()).unwrap(), 3);
    assert!(t.contains_key(&"b".to_string()));
    assert_eq!(t.find(&"b".to_string()), Some(1));
    assert_eq!(t.remove(&"a".to_string()), Some(3));
    assert_eq!(t.remove(&"a".to_string()), None);
    assert!(t.get(&"a".to_string()).is_none());
    assert_eq!(t.key_at(0), "b");
    let c = {
        let mut u: Table<u16, u16> = Table::new();
        u.insert(1, 2);
        u.copied()
    };
    assert_eq!(*c.value_at(0), 2);
}
