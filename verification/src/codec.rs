//! The wire format: one record per line, each record a small JSON object
//! that names its variant and holds the variant's fields as strings.
//!
//! ```text
//! {"Join":{"group_name":"lobby"}}
//! {"Post":{"group_name":"lobby","message":"hello"}}
//! {"Message":{"group_name":"lobby","message":"hello"}}
//! {"Error":"no such group"}
//! ```
//!
//! The encoder writes records without whitespace and escapes only what JSON
//! requires. The decoder also takes whitespace between the tokens, every JSON
//! escape, and the two fields of a variant in either order.

use crate::message::{InboundReply, OutboundRequest, Reply, Request};
use crate::text::{chars_of, is_scalar};
use vstd::prelude::*;

verus! {

// ---------------------------------------------------------------- writing

/// The lower-case hexadecimal digit for `n`, for `n` below 16.
pub open spec fn hex_digit(n: int) -> char {
    if n < 10 {
        (n + 0x30) as char
    } else {
        (n - 10 + 0x61) as char
    }
}

/// How one character stands inside a string literal.
pub open spec fn escape_char(c: char) -> Seq<char> {
    if c == '"' {
        seq!['\\', '"']
    } else if c == '\\' {
        seq!['\\', '\\']
    } else if c == '\n' {
        seq!['\\', 'n']
    } else if c == '\r' {
        seq!['\\', 'r']
    } else if c == '\t' {
        seq!['\\', 't']
    } else if c == '\u{8}' {
        seq!['\\', 'b']
    } else if c == '\u{c}' {
        seq!['\\', 'f']
    } else if (c as u32) < 0x20 {
        seq!['\\', 'u', '0', '0', hex_digit(c as int / 16), hex_digit(c as int % 16)]
    } else {
        seq![c]
    }
}

/// How a text stands inside a string literal.
pub open spec fn escape(text: Seq<char>) -> Seq<char>
    decreases text.len(),
{
    if text.len() == 0 {
        Seq::empty()
    } else {
        escape_char(text[0]) + escape(text.drop_first())
    }
}

/// The string literal for a text.
pub open spec fn quote(text: Seq<char>) -> Seq<char> {
    seq!['"'] + escape(text) + seq!['"']
}

/// The field `"name":"value"`.
pub open spec fn field(name: Seq<char>, value: Seq<char>) -> Seq<char> {
    quote(name) + seq![':'] + quote(value)
}

/// The object `{"name":"value"}`.
pub open spec fn one_field(name: Seq<char>, value: Seq<char>) -> Seq<char> {
    seq!['{'] + field(name, value) + seq!['}']
}

/// The object `{"name":"value","name":"value"}`.
pub open spec fn two_fields(
    first: Seq<char>,
    first_value: Seq<char>,
    second: Seq<char>,
    second_value: Seq<char>,
) -> Seq<char> {
    seq!['{'] + field(first, first_value) + seq![','] + field(second, second_value) + seq!['}']
}

/// The record `{"tag":payload}`.
pub open spec fn tagged(tag: Seq<char>, payload: Seq<char>) -> Seq<char> {
    seq!['{'] + quote(tag) + seq![':'] + payload + seq!['}']
}

/// The record for a request.
pub open spec fn request_record(request: Request) -> Seq<char> {
    match request {
        Request::Join { group_name } => tagged("Join"@, one_field("group_name"@, group_name)),
        Request::Post { group_name, message } => tagged(
            "Post"@,
            two_fields("group_name"@, group_name, "message"@, message),
        ),
    }
}

/// The record for a reply.
pub open spec fn reply_record(reply: Reply) -> Seq<char> {
    match reply {
        Reply::Message { group_name, message } => tagged(
            "Message"@,
            two_fields("group_name"@, group_name, "message"@, message),
        ),
        Reply::Error { detail } => tagged("Error"@, quote(detail)),
    }
}

/// A record as it travels: followed by a line feed.
pub open spec fn framed(record: Seq<char>) -> Seq<char> {
    record + seq!['\n']
}

// ---------------------------------------------------------------- reading

/// Whether `c` is whitespace between the tokens of a record.
pub open spec fn is_space(c: char) -> bool {
    c == ' ' || c == '\t' || c == '\n' || c == '\r'
}

/// The number of whitespace characters that `s` starts with.
pub open spec fn leading_space(s: Seq<char>) -> nat
    decreases s.len(),
{
    if s.len() > 0 && is_space(s[0]) {
        1 + leading_space(s.drop_first())
    } else {
        0
    }
}

/// `s` without the whitespace it starts with.
pub open spec fn skip_space(s: Seq<char>) -> Seq<char> {
    s.skip(leading_space(s) as int)
}

/// Reads the character `c` after optional whitespace: what follows it.
pub open spec fn symbol(s: Seq<char>, c: char) -> Option<Seq<char>> {
    let t = skip_space(s);
    if t.len() > 0 && t[0] == c {
        Some(t.skip(1))
    } else {
        None
    }
}

/// The value of a hexadecimal digit.
pub open spec fn hex_value(c: char) -> Option<int> {
    let n = c as u32 as int;
    if 0x30 <= n <= 0x39 {
        Some(n - 0x30)
    } else if 0x61 <= n <= 0x66 {
        Some(n - 0x61 + 10)
    } else if 0x41 <= n <= 0x46 {
        Some(n - 0x41 + 10)
    } else {
        None
    }
}

/// The value of the four hexadecimal digits that `s` starts with.
pub open spec fn hex4(s: Seq<char>) -> Option<int> {
    if s.len() >= 4 && hex_value(s[0]) is Some && hex_value(s[1]) is Some && hex_value(s[2]) is Some
        && hex_value(s[3]) is Some {
        Some(
            ((hex_value(s[0])->0 * 16 + hex_value(s[1])->0) * 16 + hex_value(s[2])->0) * 16
                + hex_value(s[3])->0,
        )
    } else {
        None
    }
}

/// Reads what follows `\u`: four digits that give a scalar value, or a high
/// surrogate, `\u` and a low surrogate. Gives the character and the number of
/// characters read.
#[verifier::opaque]
pub open spec fn unicode_escape(s: Seq<char>) -> Option<(char, nat)> {
    match hex4(s) {
        None => None,
        Some(high) => if is_scalar(high) {
            Some((high as char, 4))
        } else if high < 0xDC00 && s.len() >= 6 && s[4] == '\\' && s[5] == 'u' {
            match hex4(s.skip(6)) {
                None => None,
                Some(low) => if 0xDC00 <= low < 0xE000 {
                    Some(((0x10000 + (high - 0xD800) * 0x400 + (low - 0xDC00)) as char, 10))
                } else {
                    None
                },
            }
        } else {
            None
        },
    }
}

/// The character that a backslash and `letter` stand for.
pub open spec fn short_escape(letter: char) -> Option<char> {
    if letter == '"' {
        Some('"')
    } else if letter == '\\' {
        Some('\\')
    } else if letter == '/' {
        Some('/')
    } else if letter == 'b' {
        Some('\u{8}')
    } else if letter == 'f' {
        Some('\u{c}')
    } else if letter == 'n' {
        Some('\n')
    } else if letter == 'r' {
        Some('\r')
    } else if letter == 't' {
        Some('\t')
    } else {
        None
    }
}

/// Reads what follows a backslash: the character it stands for and the number
/// of characters read.
#[verifier::opaque]
pub open spec fn escaped(s: Seq<char>) -> Option<(char, nat)> {
    if s.len() == 0 {
        None
    } else if s[0] == 'u' {
        match unicode_escape(s.skip(1)) {
            None => None,
            Some((c, n)) => Some((c, n + 1)),
        }
    } else {
        match short_escape(s[0]) {
            None => None,
            Some(c) => Some((c, 1)),
        }
    }
}

/// Puts `c` in front of the text of a reading.
pub open spec fn after(c: char, reading: Option<(Seq<char>, Seq<char>)>) -> Option<
    (Seq<char>, Seq<char>),
> {
    match reading {
        None => None,
        Some((text, rest)) => Some((seq![c] + text, rest)),
    }
}

/// Reads the inside of a string literal up to its closing quote: the text it
/// stands for, and what follows the quote.
pub open spec fn body(s: Seq<char>) -> Option<(Seq<char>, Seq<char>)>
    decreases s.len(),
{
    if s.len() == 0 {
        None
    } else if s[0] == '"' {
        Some((Seq::empty(), s.skip(1)))
    } else if s[0] == '\\' {
        match escaped(s.skip(1)) {
            None => None,
            Some((c, n)) => if 1 + n <= s.len() {
                after(c, body(s.skip(1 + n as int)))
            } else {
                None
            },
        }
    } else if (s[0] as u32) < 0x20 {
        None
    } else {
        after(s[0], body(s.skip(1)))
    }
}

/// Reads a string literal after optional whitespace: the text it stands for,
/// and what follows it.
pub open spec fn text(s: Seq<char>) -> Option<(Seq<char>, Seq<char>)> {
    let t = skip_space(s);
    if t.len() > 0 && t[0] == '"' {
        body(t.skip(1))
    } else {
        None
    }
}

/// Reads `"name":"value"`: the name, the value, and what follows.
pub open spec fn member(s: Seq<char>) -> Option<(Seq<char>, Seq<char>, Seq<char>)> {
    match text(s) {
        None => None,
        Some((name, rest)) => match symbol(rest, ':') {
            None => None,
            Some(rest) => match text(rest) {
                None => None,
                Some((value, rest)) => Some((name, value, rest)),
            },
        },
    }
}

/// Reads an object whose one field is `name`: the field's value, and what
/// follows the object.
pub open spec fn single(s: Seq<char>, name: Seq<char>) -> Option<(Seq<char>, Seq<char>)> {
    match symbol(s, '{') {
        None => None,
        Some(rest) => match member(rest) {
            None => None,
            Some((found, value, rest)) => match symbol(rest, '}') {
                None => None,
                Some(rest) => if found == name {
                    Some((value, rest))
                } else {
                    None
                },
            },
        },
    }
}

/// Reads an object whose two fields are `first` and `second`, in either
/// order: the value of `first`, the value of `second`, and what follows the
/// object.
pub open spec fn pair(s: Seq<char>, first: Seq<char>, second: Seq<char>) -> Option<
    (Seq<char>, Seq<char>, Seq<char>),
> {
    match symbol(s, '{') {
        None => None,
        Some(rest) => match member(rest) {
            None => None,
            Some((name_a, value_a, rest)) => match symbol(rest, ',') {
                None => None,
                Some(rest) => match member(rest) {
                    None => None,
                    Some((name_b, value_b, rest)) => match symbol(rest, '}') {
                        None => None,
                        Some(rest) => if name_a == first && name_b == second {
                            Some((value_a, value_b, rest))
                        } else if name_a == second && name_b == first {
                            Some((value_b, value_a, rest))
                        } else {
                            None
                        },
                    },
                },
            },
        },
    }
}

/// Reads `{"tag":` at the start of a record: the tag, and what follows the
/// colon.
pub open spec fn opening(s: Seq<char>) -> Option<(Seq<char>, Seq<char>)> {
    match symbol(s, '{') {
        None => None,
        Some(rest) => match text(rest) {
            None => None,
            Some((tag, rest)) => match symbol(rest, ':') {
                None => None,
                Some(rest) => Some((tag, rest)),
            },
        },
    }
}

/// Whether `s` ends a record: a closing brace, then nothing but whitespace.
pub open spec fn closing(s: Seq<char>) -> bool {
    match symbol(s, '}') {
        None => false,
        Some(rest) => skip_space(rest).len() == 0,
    }
}

/// The request that a record stands for, or `None` where the text is no
/// record of a request.
pub open spec fn record_request(s: Seq<char>) -> Option<Request> {
    match opening(s) {
        None => None,
        Some((tag, rest)) => if tag == "Join"@ {
            match single(rest, "group_name"@) {
                Some((group_name, rest)) if closing(rest) => Some(Request::Join { group_name }),
                _ => None,
            }
        } else if tag == "Post"@ {
            match pair(rest, "group_name"@, "message"@) {
                Some((group_name, message, rest)) if closing(rest) => Some(
                    Request::Post { group_name, message },
                ),
                _ => None,
            }
        } else {
            None
        },
    }
}

/// The reply that a record stands for, or `None` where the text is no record
/// of a reply.
pub open spec fn record_reply(s: Seq<char>) -> Option<Reply> {
    match opening(s) {
        None => None,
        Some((tag, rest)) => if tag == "Message"@ {
            match pair(rest, "group_name"@, "message"@) {
                Some((group_name, message, rest)) if closing(rest) => Some(
                    Reply::Message { group_name, message },
                ),
                _ => None,
            }
        } else if tag == "Error"@ {
            match text(rest) {
                Some((detail, rest)) if closing(rest) => Some(Reply::Error { detail }),
                _ => None,
            }
        } else {
            None
        },
    }
}

// ---------------------------------------------------------------- encoder

/// Escaping goes character by character.
pub proof fn lemma_escape_push(text: Seq<char>, c: char)
    ensures
        escape(text.push(c)) == escape(text) + escape_char(c),
    decreases text.len(),
{
    if text.len() == 0 {
        assert(text.push(c).drop_first() =~= Seq::<char>::empty());
        assert(escape(Seq::<char>::empty()) =~= Seq::<char>::empty());
        assert(escape(text.push(c)) =~= escape_char(c));
    } else {
        assert(text.push(c).drop_first() =~= text.drop_first().push(c));
        lemma_escape_push(text.drop_first(), c);
        assert(escape(text.push(c)) =~= escape(text) + escape_char(c));
    }
}

fn hex_digit_of(n: u32) -> (c: char)
    requires
        n < 16,
    ensures
        c == hex_digit(n as int),
{
    if n < 10 {
        ((n + 0x30) as u8) as char
    } else {
        ((n - 10 + 0x61) as u8) as char
    }
}

/// Appends `c` as it stands inside a string literal.
fn push_escaped(out: &mut String, c: char)
    ensures
        final(out)@ == old(out)@ + escape_char(c),
{
    let n: u32 = c as u32;
    if c == '"' {
        out.push('\\');
        out.push('"');
    } else if c == '\\' {
        out.push('\\');
        out.push('\\');
    } else if c == '\n' {
        out.push('\\');
        out.push('n');
    } else if c == '\r' {
        out.push('\\');
        out.push('r');
    } else if c == '\t' {
        out.push('\\');
        out.push('t');
    } else if c == '\u{8}' {
        out.push('\\');
        out.push('b');
    } else if c == '\u{c}' {
        out.push('\\');
        out.push('f');
    } else if n < 0x20 {
        out.push('\\');
        out.push('u');
        out.push('0');
        out.push('0');
        out.push(hex_digit_of(n / 16));
        out.push(hex_digit_of(n % 16));
    } else {
        out.push(c);
    }
    assert(out@ =~= old(out)@ + escape_char(c));
}

/// Appends the string literal for `text`.
fn push_quoted(out: &mut String, text: &str)
    ensures
        final(out)@ == old(out)@ + quote(text@),
{
    let ghost before = out@;
    out.push('"');
    for c in it: text.chars()
        invariant
            it.seq() == text@,
            out@ == before + seq!['"'] + escape(text@.take(it.index() as int)),
    {
        proof {
            let done = text@.take(it.index() as int);
            lemma_escape_push(done, c);
            assert(text@.take(it.index() + 1) =~= done.push(c));
        }
        push_escaped(out, c);
        assert(out@ =~= before + seq!['"'] + escape(text@.take(it.index() + 1)));
    }
    assert(text@.take(text@.len() as int) =~= text@);
    out.push('"');
    assert(out@ =~= before + quote(text@));
}

/// Appends the field `"name":"value"`.
fn push_field(out: &mut String, name: &str, value: &str)
    ensures
        final(out)@ == old(out)@ + field(name@, value@),
{
    push_quoted(out, name);
    out.push(':');
    push_quoted(out, value);
    assert(out@ =~= old(out)@ + field(name@, value@));
}

/// Appends the object `{"name":"value"}`.
fn push_one_field(out: &mut String, name: &str, value: &str)
    ensures
        final(out)@ == old(out)@ + one_field(name@, value@),
{
    out.push('{');
    push_field(out, name, value);
    out.push('}');
    assert(out@ =~= old(out)@ + one_field(name@, value@));
}

/// Appends the object `{"first":"value","second":"value"}`.
fn push_two_fields(
    out: &mut String,
    first: &str,
    first_value: &str,
    second: &str,
    second_value: &str,
)
    ensures
        final(out)@ == old(out)@ + two_fields(first@, first_value@, second@, second_value@),
{
    out.push('{');
    push_field(out, first, first_value);
    out.push(',');
    push_field(out, second, second_value);
    out.push('}');
    assert(out@ =~= old(out)@ + two_fields(first@, first_value@, second@, second_value@));
}

/// Writes a request as one line: its record and a line feed.
pub fn encode_request(request: &OutboundRequest) -> (line: String)
    ensures
        line@ == framed(request_record(request@)),
{
    let mut out = String::new();
    out.push('{');
    match request {
        OutboundRequest::Join { group_name } => {
            push_quoted(&mut out, "Join");
            out.push(':');
            push_one_field(&mut out, "group_name", group_name.as_str());
        },
        OutboundRequest::Post { group_name, message } => {
            push_quoted(&mut out, "Post");
            out.push(':');
            push_two_fields(
                &mut out,
                "group_name",
                group_name.as_str(),
                "message",
                message.as_str(),
            );
        },
    }
    out.push('}');
    out.push('\n');
    assert(out@ =~= framed(request_record(request@)));
    out
}

/// Writes a reply as one line: its record and a line feed.
pub fn encode_reply(reply: &InboundReply) -> (line: String)
    ensures
        line@ == framed(reply_record(reply@)),
{
    let mut out = String::new();
    out.push('{');
    match reply {
        InboundReply::Message { group_name, message } => {
            push_quoted(&mut out, "Message");
            out.push(':');
            push_two_fields(
                &mut out,
                "group_name",
                group_name.as_str(),
                "message",
                message.as_str(),
            );
        },
        InboundReply::Error { detail } => {
            push_quoted(&mut out, "Error");
            out.push(':');
            push_quoted(&mut out, detail.as_str());
        },
    }
    out.push('}');
    out.push('\n');
    assert(out@ =~= framed(reply_record(reply@)));
    out
}

// ---------------------------------------------------------------- decoder

/// The run of whitespace at the start of `s` is the only prefix of `s` that is
/// all whitespace and is followed by something else, or by nothing.
pub proof fn lemma_leading_space(s: Seq<char>, n: int)
    requires
        0 <= n <= s.len(),
        forall|i: int| 0 <= i < n ==> is_space(#[trigger] s[i]),
        n < s.len() ==> !is_space(s[n]),
    ensures
        leading_space(s) == n,
    decreases s.len(),
{
    if n > 0 {
        let t = s.drop_first();
        assert forall|i: int| 0 <= i < n - 1 implies is_space(#[trigger] t[i]) by {
            assert(t[i] == s[i + 1]);
        }
        lemma_leading_space(t, n - 1);
    }
}

/// Puts `prefix` in front of the text of a reading.
pub open spec fn joined(prefix: Seq<char>, reading: Option<(Seq<char>, Seq<char>)>) -> Option<
    (Seq<char>, Seq<char>),
> {
    match reading {
        None => None,
        Some((text, rest)) => Some((prefix + text, rest)),
    }
}

fn space_end(v: &Vec<char>, from: usize) -> (to: usize)
    requires
        from <= v.len(),
    ensures
        from <= to <= v.len(),
        skip_space(v@.skip(from as int)) == v@.skip(to as int),
{
    let mut i: usize = from;
    while i < v.len() && (v[i] == ' ' || v[i] == '\t' || v[i] == '\n' || v[i] == '\r')
        invariant
            from <= i <= v.len(),
            forall|k: int| from <= k < i ==> is_space(#[trigger] v@[k]),
        decreases v.len() - i,
    {
        i += 1;
    }
    proof {
        lemma_leading_space(v@.skip(from as int), i - from);
        assert(v@.skip(from as int).skip(i - from) =~= v@.skip(i as int));
    }
    i
}

fn read_symbol(v: &Vec<char>, from: usize, c: char) -> (r: Option<usize>)
    requires
        from <= v.len(),
    ensures
        match r {
            Some(to) => to <= v.len() && symbol(v@.skip(from as int), c) == Some(
                v@.skip(to as int),
            ),
            None => symbol(v@.skip(from as int), c) is None,
        },
{
    let i = space_end(v, from);
    if i < v.len() && v[i] == c {
        assert(v@.skip(i as int).skip(1) =~= v@.skip(i + 1));
        Some(i + 1)
    } else {
        None
    }
}

fn hex_value_of(c: char) -> (r: Option<u32>)
    ensures
        match r {
            Some(n) => n < 16 && hex_value(c) == Some(n as int),
            None => hex_value(c) is None,
        },
{
    let n: u32 = c as u32;
    if 0x30 <= n && n <= 0x39 {
        Some(n - 0x30)
    } else if 0x61 <= n && n <= 0x66 {
        Some(n - 0x61 + 10)
    } else if 0x41 <= n && n <= 0x46 {
        Some(n - 0x41 + 10)
    } else {
        None
    }
}

fn read_hex4(v: &Vec<char>, from: usize) -> (r: Option<u32>)
    requires
        from <= v.len(),
    ensures
        match r {
            Some(n) => n < 0x10000 && from + 4 <= v.len() && hex4(v@.skip(from as int)) == Some(
                n as int,
            ),
            None => hex4(v@.skip(from as int)) is None,
        },
{
    if v.len() - from < 4 {
        return None;
    }
    let ghost s = v@.skip(from as int);
    assert(s[0] == v@[from as int] && s[1] == v@[from + 1] && s[2] == v@[from + 2] && s[3] == v@[from
        + 3]);
    let a = match hex_value_of(v[from]) {
        None => { return None; },
        Some(n) => n,
    };
    let b = match hex_value_of(v[from + 1]) {
        None => { return None; },
        Some(n) => n,
    };
    let c = match hex_value_of(v[from + 2]) {
        None => { return None; },
        Some(n) => n,
    };
    let d = match hex_value_of(v[from + 3]) {
        None => { return None; },
        Some(n) => n,
    };
    Some(((a * 16 + b) * 16 + c) * 16 + d)
}

fn read_unicode_escape(v: &Vec<char>, from: usize) -> (r: Option<(char, usize)>)
    requires
        from <= v.len(),
    ensures
        match r {
            Some((c, n)) => from + n <= v.len() && unicode_escape(v@.skip(from as int)) == Some(
                (c, n as nat),
            ),
            None => unicode_escape(v@.skip(from as int)) is None,
        },
{
    let ghost s = v@.skip(from as int);
    proof {
        reveal(unicode_escape);
    }
    let high = match read_hex4(v, from) {
        None => { return None; },
        Some(n) => n,
    };
    match char::from_u32(high) {
        Some(c) => { return Some((c, 4)); },
        None => {},
    }
    if high >= 0xDC00 || v.len() - from < 6 {
        return None;
    }
    assert(s[4] == v@[from + 4] && s[5] == v@[from + 5]);
    if v[from + 4] != '\\' || v[from + 5] != 'u' {
        return None;
    }
    assert(s.skip(6) =~= v@.skip(from + 6));
    let low = match read_hex4(v, from + 6) {
        None => { return None; },
        Some(n) => n,
    };
    if low < 0xDC00 || low >= 0xE000 {
        return None;
    }
    match char::from_u32(0x10000 + (high - 0xD800) * 0x400 + (low - 0xDC00)) {
        Some(c) => Some((c, 10)),
        None => None,
    }
}

fn read_escaped(v: &Vec<char>, from: usize) -> (r: Option<(char, usize)>)
    requires
        from <= v.len(),
    ensures
        match r {
            Some((c, n)) => from + n <= v.len() && escaped(v@.skip(from as int)) == Some(
                (c, n as nat),
            ),
            None => escaped(v@.skip(from as int)) is None,
        },
{
    proof {
        reveal(escaped);
    }
    if from >= v.len() {
        return None;
    }
    let letter = v[from];
    assert(v@.skip(from as int)[0] == letter);
    if letter == 'u' {
        assert(v@.skip(from as int).skip(1) =~= v@.skip(from + 1));
        match read_unicode_escape(v, from + 1) {
            None => None,
            Some((c, n)) => Some((c, n + 1)),
        }
    } else {
        match short_escape_of(letter) {
            None => None,
            Some(c) => Some((c, 1)),
        }
    }
}

fn short_escape_of(letter: char) -> (r: Option<char>)
    ensures
        r == short_escape(letter),
{
    if letter == '"' {
        Some('"')
    } else if letter == '\\' {
        Some('\\')
    } else if letter == '/' {
        Some('/')
    } else if letter == 'b' {
        Some('\u{8}')
    } else if letter == 'f' {
        Some('\u{c}')
    } else if letter == 'n' {
        Some('\n')
    } else if letter == 'r' {
        Some('\r')
    } else if letter == 't' {
        Some('\t')
    } else {
        None
    }
}

fn read_body(v: &Vec<char>, from: usize) -> (r: Option<(String, usize)>)
    requires
        from <= v.len(),
    ensures
        match r {
            Some((text, to)) => to <= v.len() && body(v@.skip(from as int)) == Some(
                (text@, v@.skip(to as int)),
            ),
            None => body(v@.skip(from as int)) is None,
        },
{
    let mut text = String::new();
    let mut i: usize = from;
    proof {
        match body(v@.skip(from as int)) {
            Some((found, _)) => assert(Seq::<char>::empty() + found =~= found),
            None => {},
        }
    }
    loop
        invariant
            from <= i <= v.len(),
            body(v@.skip(from as int)) == joined(text@, body(v@.skip(i as int))),
        decreases v.len() - i,
    {
        if i >= v.len() {
            return None;
        }
        let c = v[i];
        let ghost s = v@.skip(i as int);
        let ghost before = text@;
        assert(s[0] == c);
        assert(s.skip(1) =~= v@.skip(i + 1));
        if c == '"' {
            assert(before + Seq::<char>::empty() =~= before);
            return Some((text, i + 1));
        } else if c == '\\' {
            match read_escaped(v, i + 1) {
                None => {
                    return None;
                },
                Some((e, n)) => {
                    assert(s.skip(1 + n as int) =~= v@.skip(i + 1 + n));
                    text.push(e);
                    i = i + 1 + n;
                    proof {
                        match body(v@.skip(i as int)) {
                            Some((found, _)) => assert(before + (seq![e] + found) =~= text@
                                + found),
                            None => {},
                        }
                    }
                },
            }
        } else if (c as u32) < 0x20 {
            return None;
        } else {
            text.push(c);
            i = i + 1;
            proof {
                match body(v@.skip(i as int)) {
                    Some((found, _)) => assert(before + (seq![c] + found) =~= text@ + found),
                    None => {},
                }
            }
        }
    }
}

fn read_text(v: &Vec<char>, from: usize) -> (r: Option<(String, usize)>)
    requires
        from <= v.len(),
    ensures
        match r {
            Some((found, to)) => to <= v.len() && text(v@.skip(from as int)) == Some(
                (found@, v@.skip(to as int)),
            ),
            None => text(v@.skip(from as int)) is None,
        },
{
    let i = space_end(v, from);
    if i < v.len() && v[i] == '"' {
        assert(v@.skip(i as int).skip(1) =~= v@.skip(i + 1));
        read_body(v, i + 1)
    } else {
        None
    }
}

fn read_member(v: &Vec<char>, from: usize) -> (r: Option<(String, String, usize)>)
    requires
        from <= v.len(),
    ensures
        match r {
            Some((name, value, to)) => to <= v.len() && member(v@.skip(from as int)) == Some(
                (name@, value@, v@.skip(to as int)),
            ),
            None => member(v@.skip(from as int)) is None,
        },
{
    let (name, i) = match read_text(v, from) {
        None => { return None; },
        Some(found) => found,
    };
    let j = match read_symbol(v, i, ':') {
        None => { return None; },
        Some(found) => found,
    };
    let (value, k) = match read_text(v, j) {
        None => { return None; },
        Some(found) => found,
    };
    Some((name, value, k))
}

fn read_single(v: &Vec<char>, from: usize, name: &str) -> (r: Option<(String, usize)>)
    requires
        from <= v.len(),
    ensures
        match r {
            Some((value, to)) => to <= v.len() && single(v@.skip(from as int), name@) == Some(
                (value@, v@.skip(to as int)),
            ),
            None => single(v@.skip(from as int), name@) is None,
        },
{
    let i = match read_symbol(v, from, '{') {
        None => { return None; },
        Some(found) => found,
    };
    let (found, value, j) = match read_member(v, i) {
        None => { return None; },
        Some(found) => found,
    };
    let k = match read_symbol(v, j, '}') {
        None => { return None; },
        Some(found) => found,
    };
    if found == name.to_owned() {
        Some((value, k))
    } else {
        None
    }
}

fn read_pair(v: &Vec<char>, from: usize, first: &str, second: &str) -> (r: Option<
    (String, String, usize),
>)
    requires
        from <= v.len(),
    ensures
        match r {
            Some((first_value, second_value, to)) => to <= v.len() && pair(
                v@.skip(from as int),
                first@,
                second@,
            ) == Some((first_value@, second_value@, v@.skip(to as int))),
            None => pair(v@.skip(from as int), first@, second@) is None,
        },
{
    let i = match read_symbol(v, from, '{') {
        None => { return None; },
        Some(found) => found,
    };
    let (name_a, value_a, j) = match read_member(v, i) {
        None => { return None; },
        Some(found) => found,
    };
    let k = match read_symbol(v, j, ',') {
        None => { return None; },
        Some(found) => found,
    };
    let (name_b, value_b, l) = match read_member(v, k) {
        None => { return None; },
        Some(found) => found,
    };
    let m = match read_symbol(v, l, '}') {
        None => { return None; },
        Some(found) => found,
    };
    let first = first.to_owned();
    let second = second.to_owned();
    if name_a == first && name_b == second {
        Some((value_a, value_b, m))
    } else if name_a == second && name_b == first {
        Some((value_b, value_a, m))
    } else {
        None
    }
}

fn read_opening(v: &Vec<char>, from: usize) -> (r: Option<(String, usize)>)
    requires
        from <= v.len(),
    ensures
        match r {
            Some((tag, to)) => to <= v.len() && opening(v@.skip(from as int)) == Some(
                (tag@, v@.skip(to as int)),
            ),
            None => opening(v@.skip(from as int)) is None,
        },
{
    let i = match read_symbol(v, from, '{') {
        None => { return None; },
        Some(found) => found,
    };
    let (tag, j) = match read_text(v, i) {
        None => { return None; },
        Some(found) => found,
    };
    let k = match read_symbol(v, j, ':') {
        None => { return None; },
        Some(found) => found,
    };
    Some((tag, k))
}

fn read_closing(v: &Vec<char>, from: usize) -> (r: bool)
    requires
        from <= v.len(),
    ensures
        r == closing(v@.skip(from as int)),
{
    match read_symbol(v, from, '}') {
        None => false,
        Some(i) => space_end(v, i) == v.len(),
    }
}

/// Reads a line as the record of a request. `None` where it is none.
pub fn decode_request(line: &str) -> (r: Option<OutboundRequest>)
    ensures
        match r {
            Some(request) => record_request(line@) == Some(request@),
            None => record_request(line@) is None,
        },
{
    let v = chars_of(line);
    assert(v@.skip(0) =~= line@);
    let (tag, i) = match read_opening(&v, 0) {
        None => { return None; },
        Some(found) => found,
    };
    if tag == "Join".to_owned() {
        match read_single(&v, i, "group_name") {
            None => None,
            Some((group_name, j)) => if read_closing(&v, j) {
                Some(OutboundRequest::Join { group_name })
            } else {
                None
            },
        }
    } else if tag == "Post".to_owned() {
        match read_pair(&v, i, "group_name", "message") {
            None => None,
            Some((group_name, message, j)) => if read_closing(&v, j) {
                Some(OutboundRequest::Post { group_name, message })
            } else {
                None
            },
        }
    } else {
        None
    }
}

/// Reads a line as the record of a reply. `None` where it is none.
pub fn decode_reply(line: &str) -> (r: Option<InboundReply>)
    ensures
        match r {
            Some(reply) => record_reply(line@) == Some(reply@),
            None => record_reply(line@) is None,
        },
{
    let v = chars_of(line);
    assert(v@.skip(0) =~= line@);
    let (tag, i) = match read_opening(&v, 0) {
        None => { return None; },
        Some(found) => found,
    };
    if tag == "Message".to_owned() {
        match read_pair(&v, i, "group_name", "message") {
            None => None,
            Some((group_name, message, j)) => if read_closing(&v, j) {
                Some(InboundReply::Message { group_name, message })
            } else {
                None
            },
        }
    } else if tag == "Error".to_owned() {
        match read_text(&v, i) {
            None => None,
            Some((detail, j)) => if read_closing(&v, j) {
                Some(InboundReply::Error { detail })
            } else {
                None
            },
        }
    } else {
        None
    }
}

// ---------------------------------------------------------------- laws

/// Whether `s` holds nothing but whitespace.
pub open spec fn is_blank(s: Seq<char>) -> bool {
    forall|i: int| 0 <= i < s.len() ==> is_space(#[trigger] s[i])
}

/// A character that is no whitespace is read where it stands.
pub proof fn lemma_symbol(c: char, rest: Seq<char>)
    requires
        !is_space(c),
    ensures
        symbol(seq![c] + rest, c) == Some(rest),
{
    let s = seq![c] + rest;
    assert(s[0] == c);
    assert(s.skip(0) =~= s);
    assert(s.skip(1) =~= rest);
}

/// A hexadecimal digit has the value it was written for.
pub proof fn lemma_hex_digit(n: int)
    requires
        0 <= n < 16,
    ensures
        hex_value(hex_digit(n)) == Some(n),
{
}

/// Whether the encoder writes `c` as a backslash and one letter.
pub open spec fn has_short_escape(c: char) -> bool {
    c == '"' || c == '\\' || c == '\n' || c == '\r' || c == '\t' || c == '\u{8}' || c == '\u{c}'
}

/// A backslash and a letter are read back as the character they stand for.
proof fn lemma_short_escape(letter: char, c: char, tail: Seq<char>)
    requires
        letter != 'u',
        short_escape(letter) == Some(c),
    ensures
        body(seq!['\\', letter] + tail) == after(c, body(tail)),
{
    reveal(escaped);
    let s = seq!['\\', letter] + tail;
    let t = s.skip(1);
    assert(s[0] == '\\');
    assert(t[0] == letter);
    assert(escaped(t) == Some((c, 1nat)));
    assert(s.skip(2) =~= tail);
}

/// The four digits `00XY` that the encoder writes for a control character are
/// read back as that character.
proof fn lemma_control_digits(c: char, d: Seq<char>)
    requires
        (c as u32) < 0x20,
        d.len() >= 4,
        d[0] == '0',
        d[1] == '0',
        d[2] == hex_digit(c as int / 16),
        d[3] == hex_digit(c as int % 16),
    ensures
        unicode_escape(d) == Some((c, 4nat)),
{
    reveal(unicode_escape);
    let n = c as int;
    lemma_hex_digit(n / 16);
    lemma_hex_digit(n % 16);
    assert(hex_value('0') == Some(0int));
    assert(hex4(d) == Some(n));
    assert(n as char == c);
}

/// The escape `\u00XY` that the encoder writes for a control character is
/// read back as that character.
proof fn lemma_control_escape(c: char, tail: Seq<char>)
    requires
        (c as u32) < 0x20,
    ensures
        body(
            seq!['\\', 'u', '0', '0', hex_digit(c as int / 16), hex_digit(c as int % 16)] + tail,
        ) == after(c, body(tail)),
{
    let n = c as int;
    let s = seq!['\\', 'u', '0', '0', hex_digit(n / 16), hex_digit(n % 16)] + tail;
    let t = s.skip(1);
    let d = t.skip(1);
    assert(s[0] == '\\');
    assert(t[0] == 'u');
    assert(d.len() >= 4);
    assert(d[0] == '0' && d[1] == '0' && d[2] == hex_digit(n / 16) && d[3] == hex_digit(n % 16));
    lemma_control_digits(c, d);
    assert(escaped(t) == Some((c, 5nat))) by {
        reveal(escaped);
    }
    assert(s.skip(6) =~= tail);
}

/// A character that the encoder writes as it is, is read back as it is.
proof fn lemma_plain(c: char, tail: Seq<char>)
    requires
        c != '"',
        c != '\\',
        (c as u32) >= 0x20,
    ensures
        body(seq![c] + tail) == after(c, body(tail)),
{
    let s = seq![c] + tail;
    assert(s[0] == c);
    assert(s.skip(1) =~= tail);
}

/// What the encoder writes for a character is read back as that character.
pub proof fn lemma_escape_char(c: char, tail: Seq<char>)
    ensures
        body(escape_char(c) + tail) == after(c, body(tail)),
{
    if c == '"' {
        lemma_short_escape('"', c, tail);
    } else if c == '\\' {
        lemma_short_escape('\\', c, tail);
    } else if c == '\n' {
        lemma_short_escape('n', c, tail);
    } else if c == '\r' {
        lemma_short_escape('r', c, tail);
    } else if c == '\t' {
        lemma_short_escape('t', c, tail);
    } else if c == '\u{8}' {
        lemma_short_escape('b', c, tail);
    } else if c == '\u{c}' {
        lemma_short_escape('f', c, tail);
    } else if (c as u32) < 0x20 {
        lemma_control_escape(c, tail);
    } else {
        lemma_plain(c, tail);
    }
}

/// What the encoder writes inside a string literal is read back as the text.
pub proof fn lemma_body(text: Seq<char>, rest: Seq<char>)
    ensures
        body(escape(text) + seq!['"'] + rest) == Some((text, rest)),
    decreases text.len(),
{
    let s = escape(text) + seq!['"'] + rest;
    if text.len() == 0 {
        assert(s[0] == '"');
        assert(s.skip(1) =~= rest);
    } else {
        let tail = escape(text.drop_first()) + seq!['"'] + rest;
        assert(s =~= escape_char(text[0]) + tail);
        lemma_escape_char(text[0], tail);
        lemma_body(text.drop_first(), rest);
        assert(seq![text[0]] + text.drop_first() =~= text);
    }
}

/// A string literal that the encoder wrote is read back as its text.
pub proof fn lemma_text(value: Seq<char>, rest: Seq<char>)
    ensures
        text(quote(value) + rest) == Some((value, rest)),
{
    let s = quote(value) + rest;
    assert(s[0] == '"');
    assert(s.skip(0) =~= s);
    assert(s.skip(1) =~= escape(value) + seq!['"'] + rest);
    lemma_body(value, rest);
}

/// A field that the encoder wrote is read back as its name and value.
pub proof fn lemma_member(name: Seq<char>, value: Seq<char>, rest: Seq<char>)
    ensures
        member(field(name, value) + rest) == Some((name, value, rest)),
{
    let after_name = seq![':'] + (quote(value) + rest);
    assert(field(name, value) + rest =~= quote(name) + after_name);
    lemma_text(name, after_name);
    lemma_symbol(':', quote(value) + rest);
    lemma_text(value, rest);
}

/// An object of one field that the encoder wrote is read back as the field's
/// value.
pub proof fn lemma_single(name: Seq<char>, value: Seq<char>, rest: Seq<char>)
    ensures
        single(one_field(name, value) + rest, name) == Some((value, rest)),
{
    let inner = field(name, value) + (seq!['}'] + rest);
    assert(one_field(name, value) + rest =~= seq!['{'] + inner);
    lemma_symbol('{', inner);
    lemma_member(name, value, seq!['}'] + rest);
    lemma_symbol('}', rest);
}

/// An object of two fields, with what follows it, taken apart from the left.
proof fn lemma_two_fields_apart(a: Seq<char>, b: Seq<char>, rest: Seq<char>)
    ensures
        seq!['{'] + a + seq![','] + b + seq!['}'] + rest == seq!['{'] + (a + (seq![','] + (b + (
            seq!['}'] + rest)))),
{
    assert(seq!['{'] + a + seq![','] + b + seq!['}'] + rest =~= seq!['{'] + (a + (seq![','] + (b
        + (seq!['}'] + rest)))));
}

/// An object of two fields that the encoder wrote is read back as the two
/// values.
pub proof fn lemma_pair(
    first: Seq<char>,
    first_value: Seq<char>,
    second: Seq<char>,
    second_value: Seq<char>,
    rest: Seq<char>,
)
    ensures
        pair(two_fields(first, first_value, second, second_value) + rest, first, second) == Some(
            (first_value, second_value, rest),
        ),
{
    let a = field(first, first_value);
    let b = field(second, second_value);
    let after_b = seq!['}'] + rest;
    let after_comma = b + after_b;
    let after_a = seq![','] + after_comma;
    lemma_two_fields_apart(a, b, rest);
    lemma_symbol('{', a + after_a);
    lemma_member(first, first_value, after_a);
    lemma_symbol(',', after_comma);
    lemma_member(second, second_value, after_b);
    lemma_symbol('}', rest);
}

/// The start of a record that the encoder wrote is read back as its tag.
pub proof fn lemma_opening(tag: Seq<char>, rest: Seq<char>)
    ensures
        opening(seq!['{'] + (quote(tag) + (seq![':'] + rest))) == Some((tag, rest)),
{
    lemma_symbol('{', quote(tag) + (seq![':'] + rest));
    lemma_text(tag, seq![':'] + rest);
    lemma_symbol(':', rest);
}

/// A record, with what follows it, taken apart from the left.
proof fn lemma_tagged_apart(tag: Seq<char>, payload: Seq<char>, trail: Seq<char>)
    ensures
        tagged(tag, payload) + trail == seq!['{'] + (quote(tag) + (seq![':'] + (payload + (seq![
            '}',
        ] + trail)))),
{
    assert(tagged(tag, payload) + trail =~= seq!['{'] + (quote(tag) + (seq![':'] + (payload + (
        seq!['}'] + trail)))));
}

/// A closing brace followed by nothing but whitespace ends a record.
pub proof fn lemma_closing(trail: Seq<char>)
    requires
        is_blank(trail),
    ensures
        closing(seq!['}'] + trail),
{
    lemma_symbol('}', trail);
    lemma_leading_space(trail, trail.len() as int);
}

/// Decoding undoes encoding: the record of a request, alone or followed by
/// whitespace such as the line feed that frames it, is read back as that
/// request.
pub proof fn law_request_round_trip(request: Request, trail: Seq<char>)
    requires
        is_blank(trail),
    ensures
        record_request(request_record(request) + trail) == Some(request),
{
    reveal_strlit("Join");
    reveal_strlit("Post");
    assert("Post"@[0] != "Join"@[0]);
    let end = seq!['}'] + trail;
    lemma_closing(trail);
    match request {
        Request::Join { group_name } => {
            let payload = one_field("group_name"@, group_name);
            lemma_tagged_apart("Join"@, payload, trail);
            lemma_opening("Join"@, payload + end);
            lemma_single("group_name"@, group_name, end);
        },
        Request::Post { group_name, message } => {
            let payload = two_fields("group_name"@, group_name, "message"@, message);
            lemma_tagged_apart("Post"@, payload, trail);
            lemma_opening("Post"@, payload + end);
            lemma_pair("group_name"@, group_name, "message"@, message, end);
        },
    }
}

/// Decoding undoes encoding: the record of a reply, alone or followed by
/// whitespace such as the line feed that frames it, is read back as that
/// reply.
pub proof fn law_reply_round_trip(reply: Reply, trail: Seq<char>)
    requires
        is_blank(trail),
    ensures
        record_reply(reply_record(reply) + trail) == Some(reply),
{
    reveal_strlit("Message");
    reveal_strlit("Error");
    assert("Error"@[0] != "Message"@[0]);
    let end = seq!['}'] + trail;
    lemma_closing(trail);
    match reply {
        Reply::Message { group_name, message } => {
            let payload = two_fields("group_name"@, group_name, "message"@, message);
            lemma_tagged_apart("Message"@, payload, trail);
            lemma_opening("Message"@, payload + end);
            lemma_pair("group_name"@, group_name, "message"@, message, end);
        },
        Reply::Error { detail } => {
            let payload = quote(detail);
            lemma_tagged_apart("Error"@, payload, trail);
            lemma_opening("Error"@, payload + end);
            lemma_text(detail, end);
        },
    }
}

/// A framed record is read back as what was written: what `encode_request`
/// returns, `decode_request` accepts, and likewise for replies.
pub proof fn law_framed_round_trip(request: Request, reply: Reply)
    ensures
        record_request(framed(request_record(request))) == Some(request),
        record_reply(framed(reply_record(reply))) == Some(reply),
{
    law_request_round_trip(request, seq!['\n']);
    law_reply_round_trip(reply, seq!['\n']);
}

/// Whether `s` holds no line feed.
pub open spec fn one_line(s: Seq<char>) -> bool {
    forall|i: int| 0 <= i < s.len() ==> #[trigger] s[i] != '\n'
}

/// What the encoder writes for a character holds no line feed.
proof fn lemma_escape_char_one_line(c: char)
    ensures
        one_line(escape_char(c)),
{
    let e = escape_char(c);
    if has_short_escape(c) {
        assert(e[0] == '\\');
        assert(e[1] != '\n');
    } else if (c as u32) < 0x20 {
        let n = c as int;
        assert(e[4] == hex_digit(n / 16) && e[5] == hex_digit(n % 16));
        assert(hex_digit(n / 16) != '\n' && hex_digit(n % 16) != '\n');
        assert forall|i: int| 0 <= i < e.len() implies #[trigger] e[i] != '\n' by {
            assert(i == 0 || i == 1 || i == 2 || i == 3 || i == 4 || i == 5);
        }
    } else {
        assert(e[0] == c);
    }
}

/// A string literal holds no line feed, whatever its text holds.
pub proof fn lemma_quote_one_line(text: Seq<char>)
    ensures
        one_line(escape(text)),
        one_line(quote(text)),
    decreases text.len(),
{
    if text.len() > 0 {
        lemma_quote_one_line(text.drop_first());
        lemma_escape_char_one_line(text[0]);
    }
}

/// A record holds no line feed, so the line feed that frames it is the only
/// one on its line.
pub proof fn law_record_one_line(request: Request, reply: Reply)
    ensures
        one_line(request_record(request)),
        one_line(reply_record(reply)),
{
    lemma_quote_one_line("Join"@);
    lemma_quote_one_line("Post"@);
    lemma_quote_one_line("Message"@);
    lemma_quote_one_line("Error"@);
    lemma_quote_one_line("group_name"@);
    lemma_quote_one_line("message"@);
    match request {
        Request::Join { group_name } => {
            lemma_quote_one_line(group_name);
        },
        Request::Post { group_name, message } => {
            lemma_quote_one_line(group_name);
            lemma_quote_one_line(message);
        },
    }
    match reply {
        Reply::Message { group_name, message } => {
            lemma_quote_one_line(group_name);
            lemma_quote_one_line(message);
        },
        Reply::Error { detail } => {
            lemma_quote_one_line(detail);
        },
    }
}

} // verus!
