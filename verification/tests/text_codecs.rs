use asheraflow::text::{find, split_on, str_contains, str_eq, string_of};
use asheraflow::stdtext::{to_lowercase, trim_chars, utf8_lossy};
use asheraflow::order::sort_strings;
use asheraflow::paths::{join_path, parent_of, file_name_of, strip_path_prefix, path_starts_with};
use asheraflow::numeral::{format_decimal, format_octal, parse_radix};
use asheraflow::digest::{hex_encode, hex_decode, sha1_hex, sha1_bytes};
use asheraflow::compression::{compress, decompress};
use asheraflow::clock::{format_minute, utc_day, utc_hour, parse_ymd};
use asheraflow::keyed::TextMap;

fn chars(s: &str) -> Vec<char> {
    s.chars().collect()
}

#[test]
fn concat_and_compare() {
    assert_eq!(asheraflow::text::concat("ab", "cd"), "abcd");
    assert!(str_eq("x", "x"));
    assert!(!str_eq("x", "y"));
    assert!(str_contains("already exists here", "already exists"));
    assert!(!str_contains("exist", "exists"));
}

#[test]
fn find_gives_first_occurrence() {
    assert_eq!(find(&chars("a-task-b-task-c"), &chars("-task-")), Some(1));
    assert_eq!(find(&chars("abc"), &chars("d")), None);
    assert_eq!(find(&chars("abc"), &chars("")), Some(0));
}

#[test]
fn split_on_keeps_empty_parts() {
    let parts = split_on(&chars("a/b//c"), '/');
    let texts: Vec<String> = parts.iter().map(|p| string_of(p)).collect();
    assert_eq!(texts, vec!["a", "b", "", "c"]);
}

#[test]
fn trim_removes_outer_whitespace() {
    let t = trim_chars(&chars("  hello world \t\n"));
    assert_eq!(string_of(&t), "hello world");
}

#[test]
fn lowercase_through_std() {
    assert_eq!(to_lowercase("Sprint ONE"), "sprint one");
}

#[test]
fn lossy_decoding_replaces_bad_bytes() {
    assert_eq!(utf8_lossy(b"ok"), "ok");
    assert_eq!(utf8_lossy(&[0x61, 0xff, 0x62]), "a\u{fffd}b");
}

#[test]
fn sorting_strings_orders_and_keeps_all() {
    let v = vec!["b".to_string(), "a".to_string(), "c".to_string(), "a".to_string()];
    assert_eq!(sort_strings(&v), vec!["a", "a", "b", "c"]);
}

#[test]
fn join_follows_path_join() {
    assert_eq!(join_path("a", "b"), "a/b");
    assert_eq!(join_path("a/", "b"), "a/b");
    assert_eq!(join_path("", "b"), "b");
    assert_eq!(join_path("a", "/b"), "/b");
    assert_eq!(join_path("a/b", "c"), std::path::Path::new("a/b").join("c").to_string_lossy());
}

#[test]
fn path_components_through_std() {
    assert_eq!(parent_of("a/b/c.txt"), Some("a/b".to_string()));
    assert_eq!(parent_of("c.txt"), Some("".to_string()));
    assert_eq!(parent_of("/"), None);
    assert_eq!(file_name_of("a/b/c.txt"), Some("c.txt".to_string()));
    assert_eq!(strip_path_prefix("/repo/src/x", "/repo"), Some("src/x".to_string()));
    assert_eq!(strip_path_prefix("/repo", "/repo"), Some("".to_string()));
    assert_eq!(strip_path_prefix("/other/x", "/repo"), None);
    assert!(path_starts_with("src/lib.rs", "src"));
    assert!(!path_starts_with("srcx/lib.rs", "src"));
}

#[test]
fn numerals_in_bases() {
    assert_eq!(format_decimal(0), "0");
    assert_eq!(format_decimal(1234), "1234");
    assert_eq!(format_octal(33188), "100644");
    assert_eq!(format_octal(16384), "40000");
    assert_eq!(parse_radix(&chars("100644"), 8, u32::MAX as u64), Some(33188));
    assert_eq!(parse_radix(&chars("+12"), 10, 100), Some(12));
    assert_eq!(parse_radix(&chars("101"), 10, 100), None);
    assert_eq!(parse_radix(&chars(""), 10, 100), None);
    assert_eq!(parse_radix(&chars("1a"), 10, 100), None);
}

#[test]
fn hex_round_trip() {
    let bytes = vec![0u8, 1, 0xab, 0xff];
    let h = hex_encode(&bytes);
    assert_eq!(h, "0001abff");
    assert_eq!(hex_decode(&h), Some(bytes));
    assert_eq!(hex_decode("abc"), None);
    assert_eq!(hex_decode("zz"), None);
}

#[test]
fn sha1_of_known_text() {
    assert_eq!(sha1_hex(b"hello"), "aaf4c61ddcc5e8a2dabede0f3b482cd9aea9434d");
    assert_eq!(sha1_bytes(b"hello").len(), 20);
    assert_eq!(hex_encode(&sha1_bytes(b"abc")), sha1_hex(b"abc"));
}

#[test]
fn compression_round_trip() {
    let data = b"some content\nwith lines\n".to_vec();
    let packed = compress(&data);
    assert_ne!(packed, data);
    assert_eq!(decompress(&packed), Some(data));
    assert_eq!(decompress(b"not zlib"), None);
}

#[test]
fn calendar_through_chrono() {
    assert_eq!(format_minute(0), "1970-01-01 00:00");
    assert_eq!(format_minute(86400 + 3600 + 60), "1970-01-02 01:01");
    assert_eq!(utc_day(86400 * 3 + 5), Some(3));
    assert_eq!(utc_day(-1), Some(-1));
    assert_eq!(utc_hour(7200 + 59), Some(2));
    assert_eq!(utc_hour(-1), Some(23));
    assert_eq!(parse_ymd("1970-01-02"), Some(1));
    assert_eq!(parse_ymd("2024-02-30"), None);
    assert_eq!(parse_ymd("yesterday"), None);
}

#[test]
fn text_map_keeps_last_value() {
    let mut m = TextMap::new();
    m.insert("a".to_string(), "1".to_string());
    m.insert("b".to_string(), "2".to_string());
    m.insert("a".to_string(), "3".to_string());
    assert_eq!(m.len(), 2);
    assert_eq!(m.get("a"), Some(&"3".to_string()));
    assert!(m.contains_key("b"));
    assert!(!m.contains_key("c"));
}
