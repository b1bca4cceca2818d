//! The text form of a password list: one password per line, the lines
//! joined by a newline sequence with none after the last.

use crate::generate::is_password;
use crate::generate::password_in_alphabet;
use crate::pools::is_digit;
use crate::pools::is_letter;
use crate::pools::is_symbol;
use vstd::prelude::*;
use vstd::string::StringExecFns;
use vstd::utf8::decode_utf8;
use vstd::utf8::encode_utf8;
use vstd::utf8::encode_utf8_decode_utf8;
use vstd::utf8::encode_utf8_valid_utf8;
use vstd::utf8::is_ascii_chars;
use vstd::utf8::is_ascii_chars_encode_utf8;
use vstd::utf8::valid_utf8;

verus! {

/// The byte that ends a line.
pub const LINE_FEED: u8 = 10;

/// The byte that may stand before the line feed and is then dropped with it.
pub const CARRIAGE_RETURN: u8 = 13;

/// The newline sequence that joins the lines of a list.
#[derive(Debug, Clone, Copy, PartialEq, Eq, Structural)]
pub enum Newline {
    /// A line feed alone.
    Lf,
    /// A carriage return and a line feed.
    CrLf,
}

impl Newline {
    /// The characters of the newline sequence.
    pub open spec fn chars(self) -> Seq<char> {
        match self {
            Newline::Lf => seq!['\n'],
            Newline::CrLf => seq!['\r', '\n'],
        }
    }
}

/// The texts of a list of strings, in order.
pub open spec fn texts(list: Seq<String>) -> Seq<Seq<char>> {
    Seq::new(list.len(), |i: int| list[i]@)
}

/// The lines, each followed by the separator except the last.
pub open spec fn joined(lines: Seq<Seq<char>>, separator: Seq<char>) -> Seq<char>
    decreases lines.len(),
{
    if lines.len() == 0 {
        Seq::empty()
    } else if lines.len() == 1 {
        lines[0]
    } else {
        lines[0] + separator + joined(lines.drop_first(), separator)
    }
}

/// Where the first line of `bytes` ends: the index of the first line feed,
/// or the length where there is none.
pub open spec fn line_end(bytes: Seq<u8>) -> int
    decreases bytes.len(),
{
    if bytes.len() == 0 || bytes[0] == LINE_FEED {
        0
    } else {
        1 + line_end(bytes.drop_first())
    }
}

/// The bytes of a line that count as its text: a line that a line feed ended
/// loses one carriage return from its end.
pub open spec fn line_body(raw: Seq<u8>, terminated: bool) -> Seq<u8> {
    if terminated && raw.len() > 0 && raw.last() == CARRIAGE_RETURN {
        raw.drop_last()
    } else {
        raw
    }
}

/// What a line contributes to the list: its text where its bytes are valid
/// UTF-8, nothing where they are not.
pub open spec fn line_texts(raw: Seq<u8>, terminated: bool) -> Seq<Seq<char>> {
    let body = line_body(raw, terminated);
    if valid_utf8(body) {
        seq![decode_utf8(body)]
    } else {
        Seq::empty()
    }
}

/// The list that `bytes` hold: the text of each line in turn, lines that are
/// not valid UTF-8 left out. Bytes after the last line feed form a line of
/// their own, unless there are none.
pub open spec fn parsed(bytes: Seq<u8>) -> Seq<Seq<char>>
    decreases bytes.len(),
{
    let end = line_end(bytes);
    if bytes.len() == 0 {
        Seq::empty()
    } else if 0 <= end < bytes.len() {
        line_texts(bytes.take(end), true) + parsed(bytes.skip(end + 1))
    } else {
        line_texts(bytes, false)
    }
}

/// A line that survives storage unchanged: ASCII, with neither a line feed
/// nor a carriage return in it.
pub open spec fn storable(line: Seq<char>) -> bool {
    &&& is_ascii_chars(line)
    &&& forall|i: int| 0 <= i < line.len() ==> #[trigger] line[i] != '\n' && line[i] != '\r'
}

/// Every line is storable, and the last one is not empty.
pub open spec fn storable_list(lines: Seq<Seq<char>>) -> bool {
    &&& forall|i: int| 0 <= i < lines.len() ==> storable(#[trigger] lines[i])
    &&& lines.len() > 0 ==> lines.last().len() > 0
}

/// `String::from_utf8`: the string whose UTF-8 encoding is `bytes`, or
/// nothing where `bytes` are not valid UTF-8.
#[verifier::external_body]
fn text_of(bytes: Vec<u8>) -> (text: Option<String>)
    ensures
        text is Some <==> valid_utf8(bytes@),
        text matches Some(t) ==> t@ == decode_utf8(bytes@),
{
    match String::from_utf8(bytes) {
        Ok(text) => Some(text),
        Err(_) => None,
    }
}

/// The first line ends at `end` if no line feed stands before `end` and one
/// stands there, or the bytes stop there.
pub proof fn line_end_found(bytes: Seq<u8>, end: int)
    requires
        0 <= end <= bytes.len(),
        forall|j: int| 0 <= j < end ==> bytes[j] != LINE_FEED,
        end < bytes.len() ==> bytes[end] == LINE_FEED,
    ensures
        line_end(bytes) == end,
    decreases end,
{
    if end > 0 {
        let rest = bytes.drop_first();
        assert forall|j: int| 0 <= j < end - 1 implies rest[j] != LINE_FEED by {
            assert(rest[j] == bytes[j + 1]);
        }
        line_end_found(rest, end - 1);
    }
}

/// Joining one more line to a list puts the separator and the line after
/// what was joined before.
pub proof fn joined_push(lines: Seq<Seq<char>>, separator: Seq<char>, line: Seq<char>)
    ensures
        joined(lines.push(line), separator) == if lines.len() == 0 {
            line
        } else {
            joined(lines, separator) + separator + line
        },
    decreases lines.len(),
{
    let more = lines.push(line);
    if lines.len() == 0 {
        assert(more[0] == line);
    } else {
        let rest = lines.drop_first();
        assert(more.drop_first() =~= rest.push(line));
        assert(more[0] == lines[0]);
        joined_push(rest, separator, line);
        if lines.len() == 1 {
            assert(joined(more, separator) == lines[0] + separator + line);
        } else {
            assert(joined(more, separator) =~= joined(lines, separator) + separator + line);
        }
    }
}

/// The newline sequence as a string.
pub fn newline_text(newline: Newline) -> (text: &'static str)
    ensures
        text@ == newline.chars(),
{
    match newline {
        Newline::Lf => {
            proof {
                reveal_strlit("\n");
            }
            assert("\n"@ =~= seq!['\n']);
            "\n"
        },
        Newline::CrLf => {
            proof {
                reveal_strlit("\r\n");
            }
            assert("\r\n"@ =~= seq!['\r', '\n']);
            "\r\n"
        },
    }
}

/// The text that stores `list`: its passwords joined by `newline`.
pub fn encode_list(list: &Vec<String>, newline: Newline) -> (text: String)
    ensures
        text@ == joined(texts(list@), newline.chars()),
{
    let separator = newline_text(newline);
    let mut text = String::new();
    let mut i: usize = 0;
    while i < list.len()
        invariant
            i <= list@.len(),
            separator@ == newline.chars(),
            text@ == joined(texts(list@).take(i as int), newline.chars()),
        decreases list@.len() - i,
    {
        proof {
            let lines = texts(list@);
            assert(lines.take(i as int + 1) =~= lines.take(i as int).push(list@[i as int]@));
            joined_push(lines.take(i as int), newline.chars(), list@[i as int]@);
        }
        if i > 0 {
            text.append(separator);
        }
        text.append(list[i].as_str());
        i += 1;
    }
    proof {
        assert(texts(list@).take(list@.len() as int) =~= texts(list@));
    }
    text
}

/// Turns the bytes of one line into its text and adds it to `list`, unless
/// the bytes are not valid UTF-8.
fn keep_line(list: &mut Vec<String>, raw: Vec<u8>, terminated: bool)
    ensures
        texts(final(list)@) == texts(old(list)@) + line_texts(raw@, terminated),
{
    let mut body = raw;
    let length = body.len();
    if terminated && length > 0 && body[length - 1] == CARRIAGE_RETURN {
        body.pop();
    }
    assert(body@ =~= line_body(raw@, terminated));
    match text_of(body) {
        Some(text) => {
            let ghost before = list@;
            list.push(text);
            assert(texts(list@) =~= texts(before) + seq![text@]);
        },
        None => {
            assert(texts(list@) =~= texts(list@) + Seq::<Seq<char>>::empty());
        },
    }
}

/// The list that `bytes` store: one string for each line that is valid
/// UTF-8, in order.
pub fn decode_list(bytes: &[u8]) -> (list: Vec<String>)
    ensures
        texts(list@) == parsed(bytes@),
{
    let mut list: Vec<String> = Vec::new();
    let mut line: Vec<u8> = Vec::new();
    let mut start: usize = 0;
    let mut i: usize = 0;
    proof {
        assert(bytes@.skip(0) =~= bytes@);
        assert(texts(list@) + parsed(bytes@) =~= parsed(bytes@));
    }
    while i < bytes.len()
        invariant
            start <= i <= bytes@.len(),
            line@ == bytes@.subrange(start as int, i as int),
            forall|j: int| start <= j < i ==> bytes@[j] != LINE_FEED,
            texts(list@) + parsed(bytes@.skip(start as int)) == parsed(bytes@),
        decreases bytes@.len() - i,
    {
        let byte = bytes[i];
        if byte == LINE_FEED {
            let ghost before = texts(list@);
            let ghost rest = bytes@.skip(start as int);
            proof {
                assert forall|j: int| 0 <= j < i - start implies rest[j] != LINE_FEED by {
                    assert(rest[j] == bytes@[start + j]);
                }
                line_end_found(rest, i - start);
                assert(rest.take(i - start) =~= line@);
                assert(rest.skip(i - start + 1) =~= bytes@.skip(i + 1));
                assert(parsed(rest) == line_texts(line@, true) + parsed(bytes@.skip(i + 1)));
            }
            keep_line(&mut list, line, true);
            line = Vec::new();
            start = i + 1;
            proof {
                assert(texts(list@) + parsed(bytes@.skip(start as int)) =~= before + parsed(rest));
            }
        } else {
            line.push(byte);
        }
        i += 1;
        proof {
            assert(line@ =~= bytes@.subrange(start as int, i as int));
        }
    }
    if start < i {
        let ghost before = texts(list@);
        let ghost rest = bytes@.skip(start as int);
        proof {
            assert forall|j: int| 0 <= j < i - start implies rest[j] != LINE_FEED by {
                assert(rest[j] == bytes@[start + j]);
            }
            line_end_found(rest, i - start);
            assert(rest =~= line@);
        }
        keep_line(&mut list, line, false);
    } else {
        proof {
            assert(bytes@.skip(start as int).len() == 0);
            assert(texts(list@) + Seq::<Seq<char>>::empty() =~= texts(list@));
        }
    }
    list
}

/// The encoding of two texts set end to end is their encodings set end to
/// end.
pub proof fn encode_utf8_concat(first: Seq<char>, second: Seq<char>)
    ensures
        encode_utf8(first + second) == encode_utf8(first) + encode_utf8(second),
    decreases first.len(),
{
    if first.len() == 0 {
        assert(first + second =~= second);
        assert(encode_utf8(first) + encode_utf8(second) =~= encode_utf8(second));
    } else {
        let whole = first + second;
        assert(whole.drop_first() =~= first.drop_first() + second);
        assert(whole[0] == first[0]);
        encode_utf8_concat(first.drop_first(), second);
        assert(encode_utf8(whole) =~= encode_utf8(first) + encode_utf8(second));
    }
}

/// The encoding of a storable line has one byte for each character, and
/// neither a line feed nor a carriage return among them.
proof fn storable_bytes(line: Seq<char>)
    requires
        storable(line),
    ensures
        encode_utf8(line).len() == line.len(),
        forall|j: int|
            0 <= j < line.len() ==> #[trigger] encode_utf8(line)[j] != LINE_FEED && encode_utf8(
                line,
            )[j] != CARRIAGE_RETURN,
{
    is_ascii_chars_encode_utf8(line);
    assert forall|j: int| 0 <= j < line.len() implies #[trigger] encode_utf8(line)[j] != LINE_FEED
        && encode_utf8(line)[j] != CARRIAGE_RETURN by {
        let c = line[j];
        assert(c as u8 == encode_utf8(line)[j]);
        assert(c != '\n' && c != '\r');
        assert('\0' <= c <= '\u{7f}');
    }
}

/// The encoding of a newline sequence: its one or two bytes.
proof fn newline_bytes(newline: Newline)
    ensures
        encode_utf8(newline.chars()) == match newline {
            Newline::Lf => seq![LINE_FEED],
            Newline::CrLf => seq![CARRIAGE_RETURN, LINE_FEED],
        },
{
    let chars = newline.chars();
    assert(is_ascii_chars(chars));
    is_ascii_chars_encode_utf8(chars);
    match newline {
        Newline::Lf => {
            assert(chars[0] as u8 == LINE_FEED);
            assert(encode_utf8(chars) =~= seq![LINE_FEED]);
        },
        Newline::CrLf => {
            assert(chars[0] as u8 == CARRIAGE_RETURN);
            assert(chars[1] as u8 == LINE_FEED);
            assert(encode_utf8(chars) =~= seq![CARRIAGE_RETURN, LINE_FEED]);
        },
    }
}

/// Writing a list and reading it back gives the same list: the bytes of the
/// text that stores a storable list hold that list, whichever newline
/// sequence joins the lines.
pub proof fn stored_list_reads_back(lines: Seq<Seq<char>>, newline: Newline)
    requires
        storable_list(lines),
    ensures
        parsed(encode_utf8(joined(lines, newline.chars()))) == lines,
    decreases lines.len(),
{
    let separator = newline.chars();
    let bytes = encode_utf8(joined(lines, separator));
    if lines.len() == 0 {
        assert(bytes.len() == 0);
        assert(lines =~= Seq::<Seq<char>>::empty());
    } else {
        let line = lines[0];
        let head = encode_utf8(line);
        storable_bytes(line);
        encode_utf8_valid_utf8(line);
        encode_utf8_decode_utf8(line);
        if lines.len() == 1 {
            assert(bytes == head);
            line_end_found(bytes, bytes.len() as int);
            assert(parsed(bytes) == line_texts(bytes, false));
            assert(line_body(bytes, false) == head);
            assert(lines =~= seq![line]);
        } else {
            let rest = lines.drop_first();
            let tail = encode_utf8(joined(rest, separator));
            let mark = encode_utf8(separator);
            assert(rest.last() == lines.last());
            assert forall|i: int| 0 <= i < rest.len() implies storable(#[trigger] rest[i]) by {
                assert(rest[i] == lines[i + 1]);
            }
            stored_list_reads_back(rest, newline);
            encode_utf8_concat(line + separator, joined(rest, separator));
            encode_utf8_concat(line, separator);
            newline_bytes(newline);
            assert(bytes == head + mark + tail);
            let end = head.len() + mark.len() - 1;
            assert(bytes[end] == LINE_FEED);
            assert forall|j: int| 0 <= j < end implies bytes[j] != LINE_FEED by {
                if j < head.len() {
                    assert(bytes[j] == head[j]);
                } else {
                    assert(bytes[j] == mark[j - head.len()]);
                }
            }
            line_end_found(bytes, end);
            let raw = bytes.take(end);
            assert(bytes.skip(end + 1) =~= tail);
            assert(line_body(raw, true) =~= head) by {
                match newline {
                    Newline::Lf => {
                        assert(raw =~= head);
                        if raw.len() > 0 {
                            assert(raw.last() == head[head.len() - 1]);
                        }
                    },
                    Newline::CrLf => {
                        assert(raw =~= head.push(CARRIAGE_RETURN));
                        assert(raw.drop_last() =~= head);
                    },
                }
            }
            assert(line_texts(raw, true) == seq![line]);
            assert(parsed(bytes) == seq![line] + rest);
            assert(lines =~= seq![line] + rest);
        }
    }
}

/// A password is a storable line.
pub proof fn password_is_storable(password: Seq<char>, length: int)
    requires
        is_password(password, length),
    ensures
        storable(password),
        password.len() > 0,
{
    password_in_alphabet(password, length);
    assert forall|i: int| 0 <= i < password.len() implies '\0' <= #[trigger] password[i]
        <= '\u{7f}' && password[i] != '\n' && password[i] != '\r' by {
        let c = password[i];
        assert(is_letter(c) || is_digit(c) || is_symbol(c));
    }
}

/// Writing a generated list and reading it back gives the same list, in the
/// same order: the bytes of the text that stores passwords of 16 characters
/// hold exactly those passwords.
pub proof fn generated_list_reads_back(list: Seq<Seq<char>>, newline: Newline)
    requires
        forall|i: int| 0 <= i < list.len() ==> is_password(#[trigger] list[i], 16),
    ensures
        parsed(encode_utf8(joined(list, newline.chars()))) == list,
{
    assert forall|i: int| 0 <= i < list.len() implies storable(#[trigger] list[i]) by {
        password_is_storable(list[i], 16);
    }
    if list.len() > 0 {
        password_is_storable(list.last(), 16);
    }
    stored_list_reads_back(list, newline);
}

} // verus!
