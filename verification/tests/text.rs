use log_analyzer::analysis::parse_log_line;
use log_analyzer::table::KeyedTable;
use log_analyzer::text::{chars_of, contains_chars, find_char, push_decimal, str_equals, trim_bounds};

fn string_of(cs: &[char]) -> String {
    cs.iter().collect()
}

#[test]
fn char_helpers() {
    let cs = chars_of("héllo");
    assert_eq!(cs.len(), 5);
    assert_eq!(string_of(&cs), "héllo");
    assert!(str_equals("abc", "abc"));
    assert!(!str_equals("abc", "abd"));
    assert!(contains_chars(&chars_of("haystack"), &chars_of("st")));
    assert!(!contains_chars(&chars_of("hay"), &chars_of("hays")));
    assert!(contains_chars(&chars_of(""), &chars_of("")));
    assert_eq!(find_char(&chars_of("a:b:c"), ':'), Some(1));
    assert_eq!(find_char(&chars_of("abc"), ':'), None);
    let t = chars_of(" \t x y \u{3000}");
    let (a, b) = trim_bounds(&t);
    assert_eq!(string_of(&t[a..b]), "x y");
    let blank = chars_of("   ");
    let (a, b) = trim_bounds(&blank);
    assert_eq!(a, b);
    let mut out = Vec::new();
    push_decimal(&mut out, 0);
    push_decimal(&mut out, 1234567890);
    assert_eq!(string_of(&out), "01234567890");
    let mut max = Vec::new();
    push_decimal(&mut max, u64::MAX);
    assert_eq!(string_of(&max), u64::MAX.to_string());
}

#[test]
fn keyed_table_keeps_order_and_replaces() {
    let mut t: KeyedTable<u64> = KeyedTable::new();
    t.insert("b".to_string(), 1);
    t.insert("a".to_string(), 2);
    t.insert("b".to_string(), 3);
    assert_eq!(t.len(), 2);
    assert_eq!(t.entry_at(0), (&"b".to_string(), &3));
    assert_eq!(t.replace("a", 9), Some(2));
    assert_eq!(t.replace("z", 9), None);
    assert_eq!(t.get("a").copied(), Some(9));
    assert_eq!(t.remove("b"), Some(3));
    assert_eq!(t.remove("b"), None);
    assert_eq!(t.len(), 1);
    if let Some(v) = t.get_mut("a") {
        *v += 1;
    }
    assert_eq!(t.get("a").copied(), Some(10));
    assert!(t.get_mut("zz").is_none());
    assert!(t.contains_key("a"));
    assert!(!t.contains_key("b"));
}

#[test]
fn message_trimming_agrees_with_std_white_space() {
    for n in 0u32..0x3100 {
        let Some(c) = char::from_u32(n) else { continue };
        if c == ':' || c == ']' {
            continue;
        }
        let line = format!("INFO:{c}x{c}");
        let e = parse_log_line(&line, "f".to_string()).unwrap();
        assert_eq!(e.message, format!("{c}x{c}").trim(), "char U+{:04X}", n);
    }
}
