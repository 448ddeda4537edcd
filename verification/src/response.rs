//! The JSON envelopes returned to the host. Every invocation produces one of
//! two shapes: `{"status":"success","data":[...]}` with the matching atoms as
//! strings, or `{"status":"error","message":...}` with a message string.
//! String contents are escaped exactly as a JSON serializer does.

use vstd::prelude::*;

verus! {

/// Relies on `String::push`: appends the character to the string.
pub assume_specification[ String::push ](s: &mut String, c: char)
    ensures
        final(s)@ == old(s)@.push(c),
;

/// The sixteen lowercase hexadecimal digit characters.
pub open spec fn hex_digit(n: int) -> char {
    seq!['0', '1', '2', '3', '4', '5', '6', '7', '8', '9', 'a', 'b', 'c', 'd', 'e', 'f'][n]
}

/// How one character is written inside a JSON string: quote and backslash get
/// a backslash escape, the named control characters get their short forms,
/// other control characters get a `\u00XX` escape, everything else stands as
/// itself.
pub open spec fn esc_char(c: char) -> Seq<char> {
    let u = c as u32;
    if c == '"' {
        seq!['\\', '"']
    } else if c == '\\' {
        seq!['\\', '\\']
    } else if u == 0x08 {
        seq!['\\', 'b']
    } else if u == 0x09 {
        seq!['\\', 't']
    } else if u == 0x0a {
        seq!['\\', 'n']
    } else if u == 0x0c {
        seq!['\\', 'f']
    } else if u == 0x0d {
        seq!['\\', 'r']
    } else if u < 0x20 {
        seq!['\\', 'u', '0', '0', hex_digit(u as int / 16), hex_digit(u as int % 16)]
    } else {
        seq![c]
    }
}

/// A text with every character escaped for JSON.
pub open spec fn json_escaped(s: Seq<char>) -> Seq<char>
    decreases s.len(),
{
    if s.len() == 0 {
        Seq::empty()
    } else {
        json_escaped(s.drop_last()) + esc_char(s.last())
    }
}

/// A JSON string literal: the escaped text between double quotes.
pub open spec fn quoted(s: Seq<char>) -> Seq<char> {
    seq!['"'] + json_escaped(s) + seq!['"']
}

/// The data items as a comma-separated list of JSON strings.
pub open spec fn joined_items(data: Seq<Seq<char>>) -> Seq<char>
    decreases data.len(),
{
    if data.len() == 0 {
        Seq::empty()
    } else if data.len() == 1 {
        quoted(data[0])
    } else {
        joined_items(data.drop_last()) + seq![','] + quoted(data.last())
    }
}

pub open spec fn success_prefix() -> Seq<char> {
    "{\"status\":\"success\",\"data\":["@
}

pub open spec fn error_prefix() -> Seq<char> {
    "{\"status\":\"error\",\"message\":"@
}

/// The success envelope for a list of result strings.
pub open spec fn success_json(data: Seq<Seq<char>>) -> Seq<char> {
    success_prefix() + joined_items(data) + "]}"@
}

/// The error envelope for a message string.
pub open spec fn error_json(msg: Seq<char>) -> Seq<char> {
    error_prefix() + quoted(msg) + "}"@
}

fn hex_digit_char(n: u32) -> (c: char)
    requires
        n < 16,
    ensures
        c == hex_digit(n as int),
{
    let c = if n == 0 {
        '0'
    } else if n == 1 {
        '1'
    } else if n == 2 {
        '2'
    } else if n == 3 {
        '3'
    } else if n == 4 {
        '4'
    } else if n == 5 {
        '5'
    } else if n == 6 {
        '6'
    } else if n == 7 {
        '7'
    } else if n == 8 {
        '8'
    } else if n == 9 {
        '9'
    } else if n == 10 {
        'a'
    } else if n == 11 {
        'b'
    } else if n == 12 {
        'c'
    } else if n == 13 {
        'd'
    } else if n == 14 {
        'e'
    } else {
        'f'
    };
    c
}

proof fn lemma_escaped_step(s: Seq<char>, i: int)
    requires
        0 <= i < s.len(),
    ensures
        json_escaped(s.take(i + 1)) == json_escaped(s.take(i)) + esc_char(s[i]),
{
    assert(s.take(i + 1).drop_last() =~= s.take(i));
    assert(s.take(i + 1).last() == s[i]);
}

/// Appends the JSON-escaped form of `s` to `out`.
pub fn escape_into(out: &mut String, s: &str)
    ensures
        final(out)@ == old(out)@ + json_escaped(s@),
{
    let n = s.unicode_len();
    let mut i: usize = 0;
    while i < n
        invariant
            n == s@.len(),
            i <= n,
            out@ == old(out)@ + json_escaped(s@.take(i as int)),
        decreases n - i,
    {
        let c = s.get_char(i);
        let u = c as u32;
        let ghost before = out@;
        if c == '"' {
            out.push('\\');
            out.push('"');
        } else if c == '\\' {
            out.push('\\');
            out.push('\\');
        } else if u == 0x08 {
            out.push('\\');
            out.push('b');
        } else if u == 0x09 {
            out.push('\\');
            out.push('t');
        } else if u == 0x0a {
            out.push('\\');
            out.push('n');
        } else if u == 0x0c {
            out.push('\\');
            out.push('f');
        } else if u == 0x0d {
            out.push('\\');
            out.push('r');
        } else if u < 0x20 {
            out.push('\\');
            out.push('u');
            out.push('0');
            out.push('0');
            out.push(hex_digit_char(u / 16));
            out.push(hex_digit_char(u % 16));
        } else {
            out.push(c);
        }
        proof {
            assert(out@ =~= before + esc_char(s@[i as int]));
            lemma_escaped_step(s@, i as int);
        }
        i += 1;
    }
    proof {
        assert(s@.take(n as int) =~= s@);
    }
}

proof fn lemma_joined_step(data: Seq<Seq<char>>, i: int)
    requires
        0 <= i < data.len(),
    ensures
        i == 0 ==> joined_items(data.take(1)) == quoted(data[0]),
        i > 0 ==> joined_items(data.take(i + 1)) == joined_items(data.take(i)) + seq![',']
            + quoted(data[i]),
{
    assert(data.take(i + 1).drop_last() =~= data.take(i));
    assert(data.take(i + 1).last() == data[i]);
}

/// Builds the success envelope around the result strings.
pub fn success_envelope(data: &Vec<String>) -> (r: String)
    ensures
        r@ == success_json(data.deep_view()),
{
    let mut out = String::from_str("{\"status\":\"success\",\"data\":[");
    let n = data.len();
    let mut i: usize = 0;
    while i < n
        invariant
            n == data@.len(),
            i <= n,
            out@ == success_prefix() + joined_items(data.deep_view().take(i as int)),
        decreases n - i,
    {
        let ghost before = out@;
        if i > 0 {
            out.push(',');
        }
        out.push('"');
        escape_into(&mut out, data[i].as_str());
        out.push('"');
        proof {
            assert(data.deep_view()[i as int] == data@[i as int]@);
            if i == 0 {
                assert(out@ =~= before + quoted(data.deep_view()[0]));
            } else {
                assert(out@ =~= before + seq![','] + quoted(data.deep_view()[i as int]));
            }
            lemma_joined_step(data.deep_view(), i as int);
        }
        i += 1;
    }
    proof {
        assert(data.deep_view().take(n as int) =~= data.deep_view());
    }
    let r = out.concat("]}");
    r
}

/// Builds the error envelope around a message.
pub fn error_envelope(msg: &str) -> (r: String)
    ensures
        r@ == error_json(msg@),
{
    let mut out = String::from_str("{\"status\":\"error\",\"message\":");
    out.push('"');
    escape_into(&mut out, msg);
    out.push('"');
    proof {
        assert(out@ =~= error_prefix() + quoted(msg@));
    }
    let r = out.concat("}");
    r
}

/// An empty result set is still a success: its envelope is the fixed text
/// `{"status":"success","data":[]}`, never an error.
pub proof fn lemma_empty_success_envelope()
    ensures
        success_json(Seq::<Seq<char>>::empty()) == "{\"status\":\"success\",\"data\":[]}"@,
{
    reveal_strlit("{\"status\":\"success\",\"data\":[");
    reveal_strlit("]}");
    reveal_strlit("{\"status\":\"success\",\"data\":[]}");
    assert(success_json(Seq::<Seq<char>>::empty()) =~= "{\"status\":\"success\",\"data\":[]}"@);
}

/// The text of a captured fault: the payload's own text when it carries one,
/// otherwise a fixed fallback line.
pub fn panic_message(payload: Option<String>) -> (r: String)
    ensures
        payload matches Some(s) ==> r@ == s@,
        payload is None ==> r@ == "An unknown panic occurred."@,
{
    match payload {
        Some(s) => s,
        None => String::from_str("An unknown panic occurred."),
    }
}

} // verus!
