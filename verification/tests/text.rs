use repolith::idmap::IdMap;
use repolith::text;
use repolith::types::ActionId;

#[test]
fn lines_are_those_of_the_standard_library() {
    for s in ["", "\n", "a", "a\n", "a\nb", "a\r\nb\r", "\r\n\r\n", "a\n\nb\n", "\r", "x\r\r\ny"] {
        let expected: Vec<&str> = s.lines().collect();
        assert_eq!(text::lines(s), expected, "{s:?}");
        assert_eq!(text::first_line(s), s.lines().next().unwrap_or(""), "{s:?}");
    }
}

#[test]
fn searching_and_splitting_agree_with_the_standard_library() {
    for (s, pat) in [("", ""), ("abc", ""), ("abc", "b"), ("abc", "bc"), ("abc", "bd"), ("a", "ab")]
    {
        assert_eq!(text::contains_text(s, pat), s.contains(pat), "{s:?} {pat:?}");
        assert_eq!(text::starts_with(s, pat), s.starts_with(pat), "{s:?} {pat:?}");
    }
    for s in ["", "/", "a/b", "/a//b/"] {
        let expected: Vec<&str> = s.split('/').collect();
        assert_eq!(text::split_char(s, '/'), expected, "{s:?}");
    }
    for s in ["", " a b ", "\t\n", "a", "\u{3000}wide\u{3000}", "x\u{85}"] {
        assert_eq!(text::trim(s), s.trim(), "{s:?}");
        assert_eq!(text::first_word(s), s.split_whitespace().next().unwrap_or(""), "{s:?}");
    }
    assert_eq!(text::last_segment("a::b::c"), "c");
    assert_eq!(text::last_segment("abc"), "abc");
    assert_eq!(text::join(&vec!["a".to_string(), "b".to_string()], ", "), "a, b");
    assert_eq!(text::replace_all("aXbX", "X", "--"), "a--b--");
}

#[test]
fn numbers_are_written_out() {
    for n in [0u64, 7, 10, 99, 100, u64::MAX] {
        assert_eq!(text::dec(n), n.to_string());
    }
    for n in [0i32, -1, i32::MIN, i32::MAX] {
        assert_eq!(text::dec_i32(n), n.to_string());
    }
    assert_eq!(text::pad("ab", 4), "ab  ");
    assert_eq!(text::pad("äöü", 4), "äöü ");
    assert_eq!(text::pad("abcde", 4), "abcde");
    assert_eq!(text::clip("abcdef", 3, "…"), "abc…");
    assert_eq!(text::clip("abc", 3, "…"), "abc");
}

#[test]
fn ids_keep_their_order_and_their_latest_value() {
    let id = |s: &str| ActionId(s.to_string());
    let mut m: IdMap<u8> = IdMap::new();
    assert!(m.is_empty());
    m.insert(id("b"), 1);
    m.insert(id("a"), 2);
    m.insert(id("b"), 3);
    assert_eq!(m.len(), 2);
    assert_eq!(m.get(&id("b")), Some(&3));
    assert_eq!(m.keys(), vec![id("b"), id("a")]);
    m.remove(&id("b"));
    m.remove(&id("absent"));
    assert!(!m.contains_key(&id("b")));
    assert_eq!(m.entries().len(), 1);
}
