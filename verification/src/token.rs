//! The text of a page cursor: a JSON object with the page index under `page`
//! and the store key under `key`, in that order and without white space, as
//! in `{"page":0,"key":"42"}`.
//!
//! The text is read back strictly: only what [`encode`] writes is a cursor's
//! text, so one cursor has one text and one text has at most one cursor.

use vstd::prelude::*;
use crate::decimal::canonical_number;
use crate::decimal::decimal;
use crate::decimal::digit;
use crate::decimal::digit_value;
use crate::decimal::is_digit;
use crate::decimal::is_digit_char;
use crate::decimal::lemma_canonical_is_decimal;
use crate::decimal::lemma_decimal_reads_back;
use crate::decimal::lemma_digits;
use crate::decimal::digit_char;
use crate::decimal::parse_number;
use crate::decimal::push_decimal;
use crate::decimal::value_of;
use crate::text::chars_of;
use crate::text::stands_at;
use crate::text::string_of;

verus! {

/// The character for a hexadecimal digit below sixteen, in lower case.
pub open spec fn hex_digit(d: nat) -> char {
    if d < 10 {
        digit(d)
    } else {
        ((87 + d) as u8) as char
    }
}

/// How one character stands inside a JSON string: the quote, the backslash
/// and the control characters are escaped, the short escapes taken where
/// JSON has them; every other character stands for itself.
pub open spec fn escape_char(c: char) -> Seq<char> {
    if c == '"' {
        seq!['\\', '"']
    } else if c == '\\' {
        seq!['\\', '\\']
    } else if c == '\u{8}' {
        seq!['\\', 'b']
    } else if c == '\u{c}' {
        seq!['\\', 'f']
    } else if c == '\n' {
        seq!['\\', 'n']
    } else if c == '\r' {
        seq!['\\', 'r']
    } else if c == '\t' {
        seq!['\\', 't']
    } else if (c as u32) < 32 {
        seq!['\\', 'u', '0', '0', hex_digit((c as u32 / 16) as nat), hex_digit((c as u32 % 16) as nat)]
    } else {
        seq![c]
    }
}

/// The characters of a JSON string that holds `text`, without the quotes
/// around it.
pub open spec fn escape(text: Seq<char>) -> Seq<char>
    decreases text.len(),
{
    if text.len() == 0 {
        Seq::empty()
    } else {
        escape_char(text.first()) + escape(text.drop_first())
    }
}

/// What stands before the page index.
pub open spec fn frame_open() -> Seq<char> {
    seq!['{', '"', 'p', 'a', 'g', 'e', '"', ':']
}

/// What stands between the page index and the key.
pub open spec fn frame_middle() -> Seq<char> {
    seq![',', '"', 'k', 'e', 'y', '"', ':', '"']
}

/// What stands after the key.
pub open spec fn frame_close() -> Seq<char> {
    seq!['"', '}']
}

/// The text of the cursor for page `page` of the result stored under `key`.
pub open spec fn token_text(page: nat, key: Seq<char>) -> Seq<char> {
    frame_open() + decimal(page) + frame_middle() + escape(key) + frame_close()
}

/// Two cursors with the same text are the same cursor: the text loses
/// neither the page index nor any part of the key.
pub proof fn lemma_token_text_injective(
    page: nat,
    key: Seq<char>,
    other_page: nat,
    other_key: Seq<char>,
)
    requires
        token_text(page, key) == token_text(other_page, other_key),
    ensures
        page == other_page,
        key == other_key,
{
    lemma_written_is_parsed(page, key);
    lemma_written_is_parsed(other_page, other_key);
}

/// The number that a lower-case hexadecimal digit stands for.
spec fn hex_value(c: char) -> Option<nat> {
    if is_digit(c) {
        Some(digit_value(c))
    } else if 97 <= c as u32 <= 102 {
        Some((c as u32 - 87) as nat)
    } else {
        None
    }
}

/// Whether a character stands for itself inside a JSON string.
spec fn plain(c: char) -> bool {
    c != '"' && c != '\\' && c as u32 >= 32
}

/// The character that the escaped text starts with, and how many characters
/// of the text stand for it. `None` where the text does not start with a
/// character as [`escape_char`] writes it.
spec fn unescape_first(text: Seq<char>) -> Option<(char, nat)> {
    if text.len() == 0 {
        None
    } else if text[0] != '\\' {
        if plain(text[0]) {
            Some((text[0], 1))
        } else {
            None
        }
    } else if text.len() < 2 {
        None
    } else if text[1] == '"' {
        Some(('"', 2))
    } else if text[1] == '\\' {
        Some(('\\', 2))
    } else if text[1] == 'b' {
        Some(('\u{8}', 2))
    } else if text[1] == 'f' {
        Some(('\u{c}', 2))
    } else if text[1] == 'n' {
        Some(('\n', 2))
    } else if text[1] == 'r' {
        Some(('\r', 2))
    } else if text[1] == 't' {
        Some(('\t', 2))
    } else if text[1] == 'u' && text.len() >= 6 && text[2] == '0' && text[3] == '0' && (text[4]
        == '0' || text[4] == '1') && hex_value(text[5]) is Some {
        let code = digit_value(text[4]) * 16 + hex_value(text[5])->0;
        if code == 8 || code == 9 || code == 10 || code == 12 || code == 13 {
            None
        } else {
            Some(((code as u8) as char, 6))
        }
    } else {
        None
    }
}

/// The text that the escaped text stands for. `None` where it is not what
/// [`escape`] writes for any text.
spec fn unescape(text: Seq<char>) -> Option<Seq<char>>
    decreases text.len(),
{
    if text.len() == 0 {
        Some(Seq::empty())
    } else {
        match unescape_first(text) {
            Some((c, n)) => if 1 <= n <= text.len() {
                match unescape(text.skip(n as int)) {
                    Some(rest) => Some(seq![c] + rest),
                    None => None,
                }
            } else {
                None
            },
            None => None,
        }
    }
}

/// Where the run of digits that starts at `from` ends.
spec fn digit_run(text: Seq<char>, from: int) -> int
    decreases text.len() - from,
{
    if 0 <= from < text.len() && is_digit(text[from]) {
        digit_run(text, from + 1)
    } else {
        from
    }
}

/// The page index and the key that a cursor's text holds. `None` where the
/// text is not a cursor's.
spec fn parse_token(text: Seq<char>) -> Option<(nat, Seq<char>)> {
    let end = digit_run(text, 8);
    let len = text.len() as int;
    if len >= 19 && text.subrange(0, 8) == frame_open() && end + 10 <= len && canonical_number(
        text.subrange(8, end),
    ) && text.subrange(end, end + 8) == frame_middle() && text.subrange(len - 2, len)
        == frame_close() && unescape(text.subrange(end + 8, len - 2)) is Some {
        Some((value_of(text.subrange(8, end)), unescape(text.subrange(end + 8, len - 2))->0))
    } else {
        None
    }
}

/// Escaping goes character by character.
pub proof fn lemma_escape_push(text: Seq<char>, c: char)
    ensures
        escape(text.push(c)) == escape(text) + escape_char(c),
    decreases text.len(),
{
    if text.len() == 0 {
        let one = text.push(c);
        assert(one.drop_first() =~= Seq::<char>::empty());
        assert(escape(one.drop_first()) =~= Seq::<char>::empty());
        assert(one.first() == c);
        assert(escape(one) =~= escape_char(c));
        assert(escape(text) + escape_char(c) =~= escape_char(c));
    } else {
        lemma_escape_push(text.drop_first(), c);
        assert(text.push(c).drop_first() =~= text.drop_first().push(c));
        assert(escape(text.push(c)) =~= escape(text) + escape_char(c));
    }
}

/// A hexadecimal digit's character stands for that digit, and the other way round.
proof fn lemma_hex_digits(c: char, d: nat)
    ensures
        hex_value(c) matches Some(v) ==> v < 16 && hex_digit(v) == c,
        d < 16 ==> hex_value(hex_digit(d)) == Some(d),
{
    lemma_digits(c, d);
    if !is_digit(c) && 97 <= c as u32 <= 102 {
        let v = (c as u32 - 87) as nat;
        let b = (87 + v) as u8;
        assert(b as char == c);
    }
    if 10 <= d < 16 {
        let b = (87 + d) as u8;
        assert((b as char) as u32 == b);
    }
}

/// An escaped character, whatever follows it, is read back as that character.
proof fn lemma_unescape_first_of_escaped(c: char, rest: Seq<char>)
    ensures
        unescape_first(escape_char(c) + rest) == Some((c, escape_char(c).len())),
{
    let text = escape_char(c) + rest;
    if c == '"' || c == '\\' || c == '\u{8}' || c == '\u{c}' || c == '\n' || c == '\r' || c
        == '\t' {
        assert(text[0] == '\\');
        assert(text[1] == escape_char(c)[1]);
    } else if (c as u32) < 32 {
        let code = c as u32;
        let high = (code / 16) as nat;
        let low = (code % 16) as nat;
        lemma_hex_digits('0', low);
        lemma_digits('0', high);
        assert(text[0] == '\\');
        assert(text[1] == 'u');
        assert(text[2] == '0');
        assert(text[3] == '0');
        assert(text[4] == hex_digit(high));
        assert(text[5] == hex_digit(low));
        assert(high == 0 || high == 1);
        assert(digit(0) == '0');
        assert(digit(1) == '1');
        assert(digit_value(text[4]) == high);
        assert(digit_value(text[4]) * 16 + hex_value(text[5])->0 == code);
        assert(((code as u8) as char) == c);
    } else {
        assert(text[0] == c);
    }
}

/// What is read as one character is that character as [`escape_char`] writes it.
proof fn lemma_escaped_of_unescape_first(text: Seq<char>)
    requires
        unescape_first(text) is Some,
    ensures
        unescape_first(text) matches Some((c, n)) && 1 <= n <= text.len() && text.take(n as int)
            == escape_char(c),
{
    let (c, n) = unescape_first(text)->0;
    if text[0] != '\\' {
        assert(text.take(1) =~= seq![text[0]]);
    } else if text[1] == 'u' {
        let high = digit_value(text[4]);
        let low = hex_value(text[5])->0;
        lemma_hex_digits(text[5], 0);
        lemma_digits(text[4], 0);
        let code = high * 16 + low;
        assert(code < 32);
        assert(c as u32 == code);
        assert(code / 16 == high);
        assert(code % 16 == low);
        assert(hex_digit(high) == text[4]);
        assert(text.take(6) =~= escape_char(c));
    } else {
        assert(text.take(2) =~= escape_char(c));
    }
}

/// Escaped text is read back as the text: escaping loses nothing.
proof fn lemma_unescape_escape(text: Seq<char>)
    ensures
        unescape(escape(text)) == Some(text),
    decreases text.len(),
{
    if text.len() > 0 {
        let first = escape_char(text.first());
        let rest = escape(text.drop_first());
        lemma_unescape_first_of_escaped(text.first(), rest);
        lemma_unescape_escape(text.drop_first());
        assert((first + rest).skip(first.len() as int) =~= rest);
        assert(seq![text.first()] + text.drop_first() =~= text);
    }
}

/// Text that is read back stands as [`escape`] writes it: one text has one
/// escaped form.
proof fn lemma_escape_unescape(escaped: Seq<char>)
    requires
        unescape(escaped) is Some,
    ensures
        escape(unescape(escaped)->0) == escaped,
    decreases escaped.len(),
{
    if escaped.len() > 0 {
        let (c, count) = unescape_first(escaped)->0;
        let n = count as int;
        lemma_escaped_of_unescape_first(escaped);
        lemma_escape_unescape(escaped.skip(n));
        let rest = unescape(escaped.skip(n))->0;
        let text = seq![c] + rest;
        assert(text.first() == c);
        assert(text.drop_first() =~= rest);
        assert(escaped.take(n) + escaped.skip(n) =~= escaped);
    } else {
        assert(escape(Seq::<char>::empty()) =~= Seq::<char>::empty());
    }
}

/// A run of digits ends where the first other character stands.
proof fn lemma_digit_run(text: Seq<char>, from: int, end: int)
    requires
        0 <= from <= end <= text.len(),
        forall|i: int| from <= i < end ==> is_digit(#[trigger] text[i]),
        end == text.len() || !is_digit(text[end]),
    ensures
        digit_run(text, from) == end,
    decreases end - from,
{
    if from < end {
        assert(is_digit(text[from]));
        lemma_digit_run(text, from + 1, end);
    }
}

/// A run of digits ends at or after its start, and within the text.
proof fn lemma_digit_run_bounds(text: Seq<char>, from: int)
    requires
        0 <= from <= text.len(),
    ensures
        from <= digit_run(text, from) <= text.len(),
    decreases text.len() - from,
{
    if from < text.len() && is_digit(text[from]) {
        lemma_digit_run_bounds(text, from + 1);
    }
}

/// What is read from a text is what the text was written from.
proof fn lemma_parsed_is_written(text: Seq<char>)
    requires
        parse_token(text) is Some,
    ensures
        parse_token(text) matches Some((page, key)) && text == token_text(page, key),
{
    let end = digit_run(text, 8);
    let len = text.len() as int;
    lemma_digit_run_bounds(text, 8);
    lemma_canonical_is_decimal(text.subrange(8, end));
    lemma_escape_unescape(text.subrange(end + 8, len - 2));
    assert(text =~= text.subrange(0, 8) + text.subrange(8, end) + text.subrange(end, end + 8)
        + text.subrange(end + 8, len - 2) + text.subrange(len - 2, len));
}

/// What a text is written from is read back from it.
proof fn lemma_written_is_parsed(page: nat, key: Seq<char>)
    ensures
        parse_token(token_text(page, key)) == Some((page, key)),
{
    let text = token_text(page, key);
    let number = decimal(page);
    let escaped = escape(key);
    let end = 8 + number.len() as int;
    let len = text.len() as int;
    lemma_decimal_reads_back(page);
    lemma_unescape_escape(key);
    assert(len == 18 + number.len() + escaped.len());
    assert forall|i: int| 8 <= i < end implies is_digit(#[trigger] text[i]) by {
        assert(text[i] == number[i - 8]);
    }
    assert(text[end] == ',');
    lemma_digit_run(text, 8, end);
    assert(text.subrange(0, 8) =~= frame_open());
    assert(text.subrange(8, end) =~= number);
    assert(text.subrange(end, end + 8) =~= frame_middle());
    assert(text.subrange(end + 8, len - 2) =~= escaped);
    assert(text.subrange(len - 2, len) =~= frame_close());
}

fn hex_digit_char(d: u8) -> (c: char)
    requires
        d < 16,
    ensures
        c == hex_digit(d as nat),
{
    if d < 10 {
        digit_char(d)
    } else {
        (87 + d) as char
    }
}

/// Appends one character of a JSON string.
fn push_escaped_char(out: &mut Vec<char>, c: char)
    ensures
        final(out)@ == old(out)@ + escape_char(c),
{
    if c == '"' || c == '\\' {
        out.push('\\');
        out.push(c);
    } else if c == '\u{8}' {
        out.push('\\');
        out.push('b');
    } else if c == '\u{c}' {
        out.push('\\');
        out.push('f');
    } else if c == '\n' {
        out.push('\\');
        out.push('n');
    } else if c == '\r' {
        out.push('\\');
        out.push('r');
    } else if c == '\t' {
        out.push('\\');
        out.push('t');
    } else if (c as u32) < 32 {
        let code = c as u32;
        out.push('\\');
        out.push('u');
        out.push('0');
        out.push('0');
        out.push(hex_digit_char((code / 16) as u8));
        out.push(hex_digit_char((code % 16) as u8));
    } else {
        out.push(c);
    }
    assert(out@ =~= old(out)@ + escape_char(c));
}

fn frame_open_chars() -> (chars: Vec<char>)
    ensures
        chars@ == frame_open(),
{
    let mut chars: Vec<char> = Vec::new();
    chars.push('{');
    chars.push('"');
    chars.push('p');
    chars.push('a');
    chars.push('g');
    chars.push('e');
    chars.push('"');
    chars.push(':');
    assert(chars@ =~= frame_open());
    chars
}

fn frame_middle_chars() -> (chars: Vec<char>)
    ensures
        chars@ == frame_middle(),
{
    let mut chars: Vec<char> = Vec::new();
    chars.push(',');
    chars.push('"');
    chars.push('k');
    chars.push('e');
    chars.push('y');
    chars.push('"');
    chars.push(':');
    chars.push('"');
    assert(chars@ =~= frame_middle());
    chars
}

fn frame_close_chars() -> (chars: Vec<char>)
    ensures
        chars@ == frame_close(),
{
    let mut chars: Vec<char> = Vec::new();
    chars.push('"');
    chars.push('}');
    assert(chars@ =~= frame_close());
    chars
}

/// Writes the text of a cursor.
pub fn encode(page: usize, key: &str) -> (text: String)
    ensures
        text@ == token_text(page as nat, key@),
{
    let mut out = frame_open_chars();
    push_decimal(&mut out, page as u64);
    let mut middle = frame_middle_chars();
    out.append(&mut middle);
    let ghost head = out@;
    for c in it: key.chars()
        invariant
            it.seq() == key@,
            out@ == head + escape(key@.take(it.index())),
    {
        proof {
            lemma_escape_push(key@.take(it.index()), c);
            assert(key@.take(it.index() + 1) =~= key@.take(it.index()).push(c));
        }
        push_escaped_char(&mut out, c);
    }
    assert(key@.take(key@.len() as int) =~= key@);
    out.push('"');
    out.push('}');
    assert(out@ =~= token_text(page as nat, key@));
    string_of(&out)
}

/// Reads one escaped character at the start of `chars[at..to]`.
fn read_escaped(chars: &Vec<char>, at: usize, to: usize) -> (res: Option<(char, usize)>)
    requires
        at < to <= chars.len(),
    ensures
        match res {
            Some((c, n)) => unescape_first(chars@.subrange(at as int, to as int)) == Some(
                (c, n as nat),
            ),
            None => unescape_first(chars@.subrange(at as int, to as int)) is None,
        },
{
    let ghost text = chars@.subrange(at as int, to as int);
    let first = chars[at];
    assert(text[0] == first);
    if first != '\\' {
        if first != '"' && first as u32 >= 32 {
            return Some((first, 1));
        } else {
            return None;
        }
    }
    if to - at < 2 {
        return None;
    }
    let second = chars[at + 1];
    assert(text[1] == second);
    if second == '"' {
        Some(('"', 2))
    } else if second == '\\' {
        Some(('\\', 2))
    } else if second == 'b' {
        Some(('\u{8}', 2))
    } else if second == 'f' {
        Some(('\u{c}', 2))
    } else if second == 'n' {
        Some(('\n', 2))
    } else if second == 'r' {
        Some(('\r', 2))
    } else if second == 't' {
        Some(('\t', 2))
    } else if second == 'u' && to - at >= 6 {
        assert(text[2] == chars@[at + 2]);
        assert(text[3] == chars@[at + 3]);
        assert(text[4] == chars@[at + 4]);
        assert(text[5] == chars@[at + 5]);
        if chars[at + 2] != '0' || chars[at + 3] != '0' {
            return None;
        }
        let high_char = chars[at + 4];
        if high_char != '0' && high_char != '1' {
            return None;
        }
        let high: u8 = if high_char == '1' {
            1
        } else {
            0
        };
        let low_code = chars[at + 5] as u32;
        let low: u8 = if 48 <= low_code && low_code <= 57 {
            (low_code - 48) as u8
        } else if 97 <= low_code && low_code <= 102 {
            (low_code - 87) as u8
        } else {
            return None;
        };
        let code: u8 = high * 16 + low;
        if code == 8 || code == 9 || code == 10 || code == 12 || code == 13 {
            return None;
        }
        Some((code as char, 6))
    } else {
        None
    }
}

/// Reads back the text that stands escaped in `chars[from..to]`.
fn unescape_chars(chars: &Vec<char>, from: usize, to: usize) -> (res: Option<Vec<char>>)
    requires
        from <= to <= chars.len(),
    ensures
        match res {
            Some(text) => unescape(chars@.subrange(from as int, to as int)) == Some(text@),
            None => unescape(chars@.subrange(from as int, to as int)) is None,
        },
{
    let ghost escaped = chars@.subrange(from as int, to as int);
    let mut text: Vec<char> = Vec::new();
    let mut at = from;
    assert(escaped.skip(0) =~= escaped);
    while at < to
        invariant
            from <= at <= to <= chars.len(),
            escaped == chars@.subrange(from as int, to as int),
            unescape(escaped) == match unescape(escaped.skip(at - from)) {
                Some(rest) => Some(text@ + rest),
                None => None,
            },
        decreases to - at,
    {
        let ghost left = escaped.skip(at - from);
        assert(left =~= chars@.subrange(at as int, to as int));
        match read_escaped(chars, at, to) {
            Some((c, n)) => {
                proof {
                    lemma_escaped_of_unescape_first(left);
                    assert(left.skip(n as int) =~= escaped.skip(at + n - from));
                    assert forall|rest: Seq<char>| (text@ + (seq![c] + rest)) == #[trigger] (
                    text@.push(c) + rest) by {
                        assert((text@ + (seq![c] + rest)) =~= (text@.push(c) + rest));
                    }
                }
                text.push(c);
                at = at + n;
            },
            None => {
                return None;
            },
        }
    }
    proof {
        assert(escaped.skip(at - from) =~= Seq::<char>::empty());
        assert(text@ + Seq::<char>::empty() =~= text@);
    }
    Some(text)
}

/// Reads a cursor's characters.
fn parse(chars: &Vec<char>) -> (res: Option<(usize, Vec<char>)>)
    ensures
        match res {
            Some((page, key)) => parse_token(chars@) == Some((page as nat, key@)),
            None => parse_token(chars@) matches Some((page, key)) ==> page > usize::MAX,
        },
{
    let len = chars.len();
    if len < 19 {
        return None;
    }
    if !stands_at(chars, 0, &frame_open_chars()) {
        return None;
    }
    let mut end: usize = 8;
    while end < len && is_digit_char(chars[end])
        invariant
            8 <= end <= len,
            len == chars.len(),
            forall|i: int| 8 <= i < end ==> is_digit(#[trigger] chars@[i]),
        decreases len - end,
    {
        end += 1;
    }
    proof {
        lemma_digit_run(chars@, 8, end as int);
    }
    if len - end < 10 {
        return None;
    }
    let page = match parse_number(chars, 8, end) {
        Some(page) => page,
        None => {
            return None;
        },
    };
    if !stands_at(chars, end, &frame_middle_chars()) {
        return None;
    }
    if !stands_at(chars, len - 2, &frame_close_chars()) {
        return None;
    }
    match unescape_chars(chars, end + 8, len - 2) {
        Some(key) => Some((page, key)),
        None => None,
    }
}

/// Reads the text of a cursor: the page index and the key that
/// [`encode`] wrote it from. `None` where no cursor has this text, or where
/// its page index is larger than an index can be on this machine.
pub fn decode(text: &str) -> (res: Option<(usize, String)>)
    ensures
        res matches Some((page, key)) ==> text@ == token_text(page as nat, key@),
        forall|page: nat, key: Seq<char>|
            page <= usize::MAX && text@ == #[trigger] token_text(page, key) ==> (res matches Some(
                (p, k),
            ) && p == page && k@ == key),
{
    let chars = chars_of(text);
    let parsed = parse(&chars);
    proof {
        if parse_token(text@) is Some {
            lemma_parsed_is_written(text@);
        }
        assert forall|page: nat, key: Seq<char>| text@ == #[trigger] token_text(page, key) implies parse_token(
            text@,
        ) == Some((page, key)) by {
            lemma_written_is_parsed(page, key);
        }
    }
    match parsed {
        Some((page, key)) => Some((page, string_of(&key))),
        None => None,
    }
}

} // verus!
