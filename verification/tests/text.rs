use renarrator::text::{is_whitespace, normalize_text, utf8_byte_len};

#[test]
fn normalize_collapses_whitespace() {
    assert_eq!(normalize_text("  banana \t  apple\n"), vec!['b', 'a', 'n', 'a', 'n', 'a', ' ', 'a', 'p', 'p', 'l', 'e']);
    assert_eq!(normalize_text("one"), vec!['o', 'n', 'e']);
    assert!(normalize_text(" \u{3000} \t").is_empty());
    assert!(normalize_text("").is_empty());
    let s: String = normalize_text("red\u{a0}\u{2003}alert  now").into_iter().collect();
    assert_eq!(s, "red alert now");
}

#[test]
fn normalize_agrees_with_split_whitespace() {
    for input in ["a  b", "\tx y\tz ", "банан   яблоко", "phase 2 fire", "   ", "q"] {
        let ours: String = normalize_text(input).into_iter().collect();
        assert_eq!(ours, input.split_whitespace().collect::<Vec<_>>().join(" "));
    }
}

#[test]
fn whitespace_matches_std() {
    for c in ['\t', '\n', ' ', '\u{85}', '\u{a0}', '\u{1680}', '\u{2000}', '\u{200a}', '\u{2028}',
        '\u{2029}', '\u{202f}', '\u{205f}', '\u{3000}', 'a', 'я', '0', '\u{200b}', '_', '\u{feff}']
    {
        assert_eq!(is_whitespace(c), c.is_whitespace(), "{c:?}");
    }
}

#[test]
fn utf8_lengths() {
    assert_eq!(utf8_byte_len(&"banan".chars().collect()), 5);
    assert_eq!(utf8_byte_len(&"анан".chars().collect()), 8);
    assert_eq!(utf8_byte_len(&"€😀".chars().collect()), 7);
    assert_eq!(utf8_byte_len(&Vec::new()), 0);
}
