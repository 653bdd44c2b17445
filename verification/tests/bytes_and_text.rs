use attribute_reader::bytes::{scan_from, Stop};
use attribute_reader::text::{bytes_equal, same_text, span_equals, text_between};

#[test]
fn scan_stops_at_the_first_byte_of_its_class() {
    let line = b"( *,;\tkey = 'v w' x;)";
    assert_eq!(scan_from(line, 0, Stop::KeyStart), 6);
    assert_eq!(scan_from(line, 6, Stop::KeyStart), 6);
    assert_eq!(scan_from(line, 6, Stop::KeyEnd), 9);
    assert_eq!(scan_from(line, 9, Stop::ValueStart), 12);
    assert_eq!(scan_from(line, 13, Stop::ClosingQuote(b'\'')), 16);
    assert_eq!(scan_from(line, 18, Stop::BareValueEnd), 19);
    assert_eq!(scan_from(line, 0, Stop::Whitespace), 1);
    assert_eq!(scan_from(line, 1, Stop::NonWhitespace), 2);
}

#[test]
fn scan_ends_at_the_end_where_nothing_stops_it() {
    let line = b"abc";
    assert_eq!(scan_from(line, 0, Stop::KeyEnd), 3);
    assert_eq!(scan_from(line, 1, Stop::ClosingQuote(b'"')), 3);
    assert_eq!(scan_from(line, 3, Stop::KeyStart), 3);
    assert_eq!(scan_from(b"", 0, Stop::KeyStart), 0);
    assert_eq!(scan_from(b"  \t ", 0, Stop::NonWhitespace), 4);
}

#[test]
fn byte_classes() {
    for b in 0..=255u8 {
        let whitespace = b <= 32;
        let separator = b == b',' || b == b';';
        let assignment = b == b'=' || b == b':';
        assert_eq!(
            Stop::KeyStart.stops_at(b),
            !(b == b'(' || b == b'*' || whitespace || separator)
        );
        assert_eq!(
            Stop::KeyEnd.stops_at(b),
            separator || assignment || whitespace || b == b')'
        );
        assert_eq!(Stop::ValueStart.stops_at(b), !(assignment || whitespace));
        assert_eq!(Stop::BareValueEnd.stops_at(b), b == b' ' || separator || b == b')');
        assert_eq!(Stop::ClosingQuote(b'"').stops_at(b), b == b'"');
        assert_eq!(Stop::Whitespace.stops_at(b), whitespace);
        assert_eq!(Stop::NonWhitespace.stops_at(b), !whitespace);
    }
}

#[test]
fn bytes_are_compared_one_by_one() {
    assert!(bytes_equal(b"", b""));
    assert!(bytes_equal(b"name", b"name"));
    assert!(!bytes_equal(b"name", b"nam"));
    assert!(!bytes_equal(b"name", b"nane"));
    assert!(span_equals(b"(name = 1)", 1, 5, b"name"));
    assert!(!span_equals(b"(name = 1)", 1, 4, b"name"));
    assert!(span_equals(b"(name = 1)", 3, 3, b""));
    assert!(same_text("żółć", "żółć"));
    assert!(!same_text("żółć", "zolc"));
}

#[test]
fn text_is_cut_at_character_boundaries() {
    let src = "(λ = \"✓ ok\")";
    assert_eq!(text_between(src, 1, 3), "λ");
    assert_eq!(text_between(src, 7, 13), "✓ ok");
    assert_eq!(text_between(src, 0, src.len()), src);
    assert_eq!(text_between(src, 4, 4), "");
}
