use bgwm::string_map::StringMap;
use bgwm::text::{parse_u32, trim_str, u32_to_string};
use bgwm::utf16::{decode_utf16_lossy, wide_null};

#[test]
fn trimming_twice_changes_nothing() {
    let once: String = trim_str("\u{3000} a b \t\n").into_iter().collect();
    assert_eq!(once, "a b");
    let twice: String = trim_str(&once).into_iter().collect();
    assert_eq!(twice, once);
}

#[test]
fn decimal_text_reads_back() {
    for n in [0u32, 7, 10, 4_294_967_295] {
        let digits: Vec<char> = u32_to_string(n).chars().collect();
        assert_eq!(parse_u32(&digits), Some(n));
    }
    let plus: Vec<char> = "+12".chars().collect();
    assert_eq!(parse_u32(&plus), Some(12));
    let bad: Vec<char> = "1x".chars().collect();
    assert_eq!(parse_u32(&bad), None);
}

#[test]
fn wide_text_decodes_with_closing_nul() {
    let back: String = decode_utf16_lossy(&wide_null("ab😀")).into_iter().collect();
    assert_eq!(back, "ab😀\0");
}

#[test]
fn map_reads_back_what_was_written() {
    let mut m = StringMap::new();
    m.insert("1".to_string(), "Win+1".to_string());
    m.insert("2".to_string(), "Win+2".to_string());
    assert_eq!(m.insert("1".to_string(), "Win+F1".to_string()), Some("Win+1".to_string()));
    assert_eq!(m.get("1").map(|s| s.as_str()), Some("Win+F1"));
    assert_eq!(m.get("2").map(|s| s.as_str()), Some("Win+2"));
    assert_eq!(m.key_at(0), "1");
    assert_eq!(m.remove("1"), Some("Win+F1".to_string()));
    assert_eq!(m.get("1"), None);
    assert_eq!(m.get("2").map(|s| s.as_str()), Some("Win+2"));
    assert_eq!(m.len(), 1);
}
