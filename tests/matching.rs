use fzy::has_match;

#[test]
fn is_match_matches() {
    assert!(has_match(b"abcd", b"/aqq/bqq/cdef"));
    assert!(has_match(b"abcd", b"abcde"));
    assert!(has_match(b"abcd", b"xabcde"));
    assert!(has_match(b"a", b"a"));
    assert!(has_match(b"a", b"ab"));
    assert!(has_match(b"a", b"ba"));
    assert!(has_match(b"abc", b"a|b|c"));
    assert!(has_match(b"", b""));
    assert!(has_match(b"", b"a"));
}

#[test]
fn is_match_doesnt_match() {
    assert!(!has_match(b"abcd", b"/aqq/cqq/bdef"));
    assert!(!has_match(b"abcd", b"/aqq/bqq/cef"));
    assert!(!has_match(b"abcd", b"ab"));
    assert!(!has_match(b"a", b""));
    assert!(!has_match(b"a", b"b"));
    assert!(!has_match(b"ass", b"tags"));
}

#[test]
fn has_match_compares_case_exactly() {
    assert!(!has_match(b"A", b"a"));
    assert!(!has_match(b"abc", b"aBc"));
    assert!(has_match(b"aBc", b"xaxBxc"));
}

#[test]
fn has_match_needs_repeated_bytes_in_order() {
    assert!(has_match(b"aa", b"aba"));
    assert!(!has_match(b"aa", b"ab"));
    assert!(!has_match(b"ba", b"ab"));
}
