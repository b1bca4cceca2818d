use arcanus::storage::newline_text;
use arcanus::{decode_list, encode_list, generate_list, Newline};

fn strings(lines: &[&str]) -> Vec<String> {
    lines.iter().map(|line| line.to_string()).collect()
}

#[test]
fn newline_text_spells_the_sequence() {
    assert_eq!(newline_text(Newline::Lf), "\n");
    assert_eq!(newline_text(Newline::CrLf), "\r\n");
}

#[test]
fn encode_joins_without_a_trailing_newline() {
    assert_eq!(encode_list(&strings(&[]), Newline::Lf), "");
    assert_eq!(encode_list(&strings(&["one"]), Newline::Lf), "one");
    assert_eq!(
        encode_list(&strings(&["one", "two", "three"]), Newline::Lf),
        "one\ntwo\nthree"
    );
    assert_eq!(
        encode_list(&strings(&["one", "two", "three"]), Newline::CrLf),
        "one\r\ntwo\r\nthree"
    );
    assert_eq!(encode_list(&strings(&["", ""]), Newline::Lf), "\n");
}

#[test]
fn decode_splits_at_line_feeds() {
    assert_eq!(decode_list(b""), strings(&[]));
    assert_eq!(decode_list(b"one"), strings(&["one"]));
    assert_eq!(decode_list(b"one\n"), strings(&["one"]));
    assert_eq!(decode_list(b"one\ntwo"), strings(&["one", "two"]));
    assert_eq!(decode_list(b"one\n\ntwo\n"), strings(&["one", "", "two"]));
    assert_eq!(decode_list(b"\n"), strings(&[""]));
    assert_eq!(decode_list(b"\n\n"), strings(&["", ""]));
}

#[test]
fn decode_drops_one_carriage_return_before_a_line_feed() {
    assert_eq!(decode_list(b"one\r\ntwo\r\n"), strings(&["one", "two"]));
    assert_eq!(decode_list(b"one\r\r\ntwo"), strings(&["one\r", "two"]));
    assert_eq!(decode_list(b"one\rtwo\n"), strings(&["one\rtwo"]));
    assert_eq!(decode_list(b"one\ntwo\r"), strings(&["one", "two\r"]));
    assert_eq!(decode_list(b"\r\n"), strings(&[""]));
    assert_eq!(decode_list(b"\r"), strings(&["\r"]));
}

#[test]
fn decode_skips_lines_that_are_not_utf8() {
    assert_eq!(decode_list(b"one\n\xff\xfe\ntwo"), strings(&["one", "two"]));
    assert_eq!(decode_list(b"\xc3\n"), strings(&[]));
    assert_eq!(decode_list(b"one\n\x80"), strings(&["one"]));
    assert_eq!(
        decode_list("na\u{ef}ve\n\u{20ac}\n".as_bytes()),
        strings(&["na\u{ef}ve", "\u{20ac}"])
    );
}

#[test]
fn a_generated_list_reads_back() {
    for newline in [Newline::Lf, Newline::CrLf] {
        let list = generate_list(Some(40)).unwrap();
        let text = encode_list(&list, newline);
        assert_eq!(decode_list(text.as_bytes()), list);
    }
}

#[test]
fn a_storable_list_reads_back() {
    let list = strings(&["", "a b", "", "HokiTiwoYaloM83#", "x"]);
    for newline in [Newline::Lf, Newline::CrLf] {
        let text = encode_list(&list, newline);
        assert_eq!(decode_list(text.as_bytes()), list);
    }
}

#[test]
fn an_empty_last_line_is_lost() {
    let list = strings(&["one", ""]);
    let text = encode_list(&list, Newline::Lf);
    assert_eq!(decode_list(text.as_bytes()), strings(&["one"]));
}
