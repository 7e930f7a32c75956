use install_core::chunk_key::{chunk_key_of, decimal_string};
use install_core::text::{chars_of, format_decimal, last_token_of, parse_number, same_text};
use install_core::text_map::TextMap;

#[test]
fn parses_plain_decimal_numbers() {
    assert_eq!(parse_number(b"0", u64::MAX), Some(0));
    assert_eq!(parse_number(b"40", u64::MAX), Some(40));
    assert_eq!(parse_number(b"007", u64::MAX), Some(7));
    assert_eq!(parse_number(b"18446744073709551615", u64::MAX), Some(u64::MAX));
}

#[test]
fn parses_a_leading_plus_and_a_hex_prefix() {
    assert_eq!(parse_number(b"+12", u64::MAX), Some(12));
    assert_eq!(parse_number(b"0x1F", u64::MAX), Some(31));
    assert_eq!(parse_number(b"0xff", u64::MAX), Some(255));
    assert_eq!(parse_number(b"0x+a", u64::MAX), Some(10));
}

#[test]
fn rejects_what_is_no_number() {
    assert_eq!(parse_number(b"", u64::MAX), None);
    assert_eq!(parse_number(b"+", u64::MAX), None);
    assert_eq!(parse_number(b"-1", u64::MAX), None);
    assert_eq!(parse_number(b"12a", u64::MAX), None);
    assert_eq!(parse_number(b" 12", u64::MAX), None);
    assert_eq!(parse_number(b"0x", u64::MAX), None);
    assert_eq!(parse_number(b"1f", u64::MAX), None);
    assert_eq!(parse_number(b"++1", u64::MAX), None);
}

#[test]
fn rejects_numbers_above_the_limit() {
    assert_eq!(parse_number(b"65535", 65535), Some(65535));
    assert_eq!(parse_number(b"65536", 65535), None);
    assert_eq!(parse_number(b"18446744073709551616", u64::MAX), None);
    assert_eq!(parse_number(b"99999999999999999999999999", u64::MAX), None);
    assert_eq!(parse_number(b"0x10000", 65535), None);
}

#[test]
fn writes_decimal_digits() {
    assert_eq!(format_decimal(0), b"0".to_vec());
    assert_eq!(format_decimal(9), b"9".to_vec());
    assert_eq!(format_decimal(10), b"10".to_vec());
    assert_eq!(format_decimal(3_000_000), b"3000000".to_vec());
    assert_eq!(format_decimal(u64::MAX), b"18446744073709551615".to_vec());
    assert_eq!(decimal_string(0), "0");
    assert_eq!(decimal_string(65535), "65535");
}

#[test]
fn written_numbers_read_back() {
    for n in [0u64, 1, 9, 10, 99, 100, 12345, u32::MAX as u64, u64::MAX] {
        assert_eq!(parse_number(&format_decimal(n), u64::MAX), Some(n));
    }
}

#[test]
fn takes_what_follows_the_last_separator() {
    assert_eq!(last_token_of("prefix_0_abc", '_'), "abc");
    assert_eq!(last_token_of("abc", '_'), "abc");
    assert_eq!(last_token_of("abc_", '_'), "");
    assert_eq!(last_token_of("", '_'), "");
    assert_eq!(last_token_of("_", '_'), "");
    assert_eq!(last_token_of("Info.plist", '.'), "plist");
    assert_eq!(last_token_of("h\u{e9}_\u{e9}t\u{e9}", '_'), "\u{e9}t\u{e9}");
}

#[test]
fn lists_characters_and_compares_texts() {
    assert_eq!(chars_of("a\u{e9}b"), vec!['a', '\u{e9}', 'b']);
    assert_eq!(chars_of(""), Vec::<char>::new());
    assert!(same_text("abc", "abc"));
    assert!(!same_text("abc", "abd"));
    assert!(!same_text("abc", "ab"));
    assert!(same_text("", ""));
}

#[test]
fn chunk_key_joins_position_and_identifier() {
    assert_eq!(chunk_key_of(0, &"pfx_aa".to_string()), "0,pfx_aa");
    assert_eq!(chunk_key_of(12, &"x".to_string()), "12,x");
    assert_eq!(chunk_key_of(65535, &"".to_string()), "65535,");
}

#[test]
fn chunk_keys_tell_positions_apart() {
    let sha = "same".to_string();
    assert_ne!(chunk_key_of(1, &sha), chunk_key_of(2, &sha));
    assert_ne!(chunk_key_of(1, &"2,x".to_string()), chunk_key_of(12, &"x".to_string()));
}

#[test]
fn text_map_keeps_one_value_for_each_key() {
    let mut map: TextMap<usize> = TextMap::new();
    assert_eq!(map.len(), 0);
    assert_eq!(map.insert("a".to_string(), 1), None);
    assert_eq!(map.insert("b".to_string(), 2), None);
    assert_eq!(map.len(), 2);
    assert_eq!(map.insert("a".to_string(), 3), Some(1));
    assert_eq!(map.len(), 2);
    assert_eq!(map.get(&"a".to_string()), Some(&3));
    assert_eq!(map.get(&"b".to_string()), Some(&2));
    assert_eq!(map.get(&"c".to_string()), None);
    assert!(map.contains_key(&"b".to_string()));
    assert!(!map.contains_key(&"B".to_string()));
}

#[test]
fn text_map_forgets_removed_keys() {
    let mut map: TextMap<usize> = TextMap::new();
    map.insert("a".to_string(), 1);
    map.insert("b".to_string(), 2);
    map.insert("c".to_string(), 3);
    assert_eq!(map.remove(&"b".to_string()), Some(2));
    assert_eq!(map.remove(&"b".to_string()), None);
    assert_eq!(map.len(), 2);
    assert_eq!(map.get(&"a".to_string()), Some(&1));
    assert_eq!(map.get(&"c".to_string()), Some(&3));
    assert!(!map.contains_key(&"b".to_string()));
}
