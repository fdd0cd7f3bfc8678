//! Stored message bodies are JSON text. A body read back from the store
//! is checked for well-formedness; a body that no longer parses is not
//! dropped but wrapped in an error envelope that carries the raw text,
//! escaped as a JSON string.

use vstd::prelude::*;
use vstd::std_specs::iter::IteratorSpec;
use vstd::string::StringExecFns;

verus! {

/// Whether the text is a well-formed JSON document. Well-formedness is a
/// property of the text alone; only the parser decides it.
pub uninterp spec fn json_is_valid(s: Seq<char>) -> bool;

/// Relies on serde_json::from_str::<serde_json::Value>: parsing succeeds
/// exactly on well-formed JSON text, and depends on the text alone.
#[verifier::external_body]
pub(crate) fn is_valid_json(s: &str) -> (r: bool)
    ensures
        r == json_is_valid(s@),
{
    serde_json::from_str::<serde_json::Value>(s).is_ok()
}

/// Relies on String::push: appends exactly one character at the end.
#[verifier::external_body]
fn push_char(s: &mut String, c: char)
    ensures
        final(s)@ == old(s)@.push(c),
{
    s.push(c);
}

/// The lower-case hex digit for a value below sixteen.
pub open spec fn hex_digit(n: int) -> char {
    if n == 0 { '0' } else if n == 1 { '1' } else if n == 2 { '2' } else if n == 3 { '3' }
    else if n == 4 { '4' } else if n == 5 { '5' } else if n == 6 { '6' } else if n == 7 { '7' }
    else if n == 8 { '8' } else if n == 9 { '9' } else if n == 10 { 'a' } else if n == 11 { 'b' }
    else if n == 12 { 'c' } else if n == 13 { 'd' } else if n == 14 { 'e' } else { 'f' }
}

/// How one character reads inside a JSON string literal: quote and
/// backslash are escaped, the named control characters use their short
/// escapes, other control characters use a four-digit escape, and
/// everything else stands as itself.
pub open spec fn esc_char(c: char) -> Seq<char> {
    if c == '"' {
        seq!['\\', '"']
    } else if c == '\\' {
        seq!['\\', '\\']
    } else if c == '\n' {
        seq!['\\', 'n']
    } else if c == '\r' {
        seq!['\\', 'r']
    } else if c == '\t' {
        seq!['\\', 't']
    } else if (c as u32) < 32 {
        seq!['\\', 'u', '0', '0', hex_digit(c as u32 as int / 16), hex_digit(c as u32 as int % 16)]
    } else {
        seq![c]
    }
}

/// The whole text escaped character by character.
pub open spec fn json_escape_spec(s: Seq<char>) -> Seq<char>
    decreases s.len(),
{
    if s.len() == 0 {
        Seq::empty()
    } else {
        json_escape_spec(s.drop_last()) + esc_char(s.last())
    }
}

/// Escaping one more character appends its escape.
pub proof fn lemma_escape_snoc(s: Seq<char>, c: char)
    ensures
        json_escape_spec(s.push(c)) == json_escape_spec(s) + esc_char(c),
{
    assert(s.push(c).drop_last() =~= s);
    assert(s.push(c).last() == c);
}

/// The lower-case hex digit for `n`, below sixteen.
fn hex_char(n: u32) -> (r: char)
    requires
        n < 16,
    ensures
        r == hex_digit(n as int),
{
    match n {
        0 => '0',
        1 => '1',
        2 => '2',
        3 => '3',
        4 => '4',
        5 => '5',
        6 => '6',
        7 => '7',
        8 => '8',
        9 => '9',
        10 => 'a',
        11 => 'b',
        12 => 'c',
        13 => 'd',
        14 => 'e',
        _ => 'f',
    }
}

/// Append the escape of one character.
fn append_escaped(r: &mut String, c: char)
    ensures
        final(r)@ == old(r)@ + esc_char(c),
{
    if c == '"' {
        push_char(r, '\\');
        push_char(r, '"');
        proof {
            assert(r@ =~= old(r)@ + esc_char(c));
        }
    } else if c == '\\' {
        push_char(r, '\\');
        push_char(r, '\\');
        proof {
            assert(r@ =~= old(r)@ + esc_char(c));
        }
    } else if c == '\n' {
        push_char(r, '\\');
        push_char(r, 'n');
        proof {
            assert(r@ =~= old(r)@ + esc_char(c));
        }
    } else if c == '\r' {
        push_char(r, '\\');
        push_char(r, 'r');
        proof {
            assert(r@ =~= old(r)@ + esc_char(c));
        }
    } else if c == '\t' {
        push_char(r, '\\');
        push_char(r, 't');
        proof {
            assert(r@ =~= old(r)@ + esc_char(c));
        }
    } else if (c as u32) < 32 {
        let n = c as u32;
        push_char(r, '\\');
        push_char(r, 'u');
        push_char(r, '0');
        push_char(r, '0');
        push_char(r, hex_char(n / 16));
        push_char(r, hex_char(n % 16));
        proof {
            assert(r@ =~= old(r)@ + esc_char(c));
        }
    } else {
        push_char(r, c);
        proof {
            assert(r@ =~= old(r)@ + esc_char(c));
        }
    }
}

/// Escape the whole text for use inside a JSON string literal.
pub fn json_escape(s: &str) -> (r: String)
    ensures
        r@ == json_escape_spec(s@),
{
    broadcast use vstd::string::axiom_spec_iter;
    broadcast use vstd::string::next_postcondition;

    let mut r = String::new();
    let mut it = s.chars();
    let ghost mut n: int = 0;
    proof {
        assert(it.remaining() =~= s@.skip(0));
        assert(s@.take(0) =~= Seq::<char>::empty());
    }
    loop
        invariant
            0 <= n <= s@.len(),
            it.remaining() == s@.skip(n),
            r@ == json_escape_spec(s@.take(n)),
        ensures
            r@ == json_escape_spec(s@),
        decreases s@.len() - n,
    {
        let next = it.next();
        match next {
            Some(c) => {
                proof {
                    assert(s@.skip(n).len() > 0);
                    assert(c == s@.skip(n)[0]);
                    assert(c == s@[n]);
                    assert(s@.skip(n).drop_first() =~= s@.skip(n + 1));
                }
                append_escaped(&mut r, c);
                proof {
                    assert(s@.take(n + 1).drop_last() =~= s@.take(n));
                    assert(s@.take(n + 1).last() == s@[n]);
                    assert(r@ == json_escape_spec(s@.take(n + 1)));
                    n = n + 1;
                }
            },
            None => {
                proof {
                    assert(s@.skip(n).len() == 0);
                    assert(n == s@.len());
                    assert(s@.take(n) =~= s@);
                }
                break ;
            },
        }
    }
    r
}

/// A stored body read back: well-formed JSON stands as it is; anything
/// else is replaced by an error envelope that names the fault and carries
/// the raw text escaped.
pub open spec fn decoded_body(s: Seq<char>) -> Seq<char> {
    if json_is_valid(s) {
        s
    } else {
        "{\"error\":\"Invalid JSON\",\"raw\":\""@ + json_escape_spec(s) + "\"}"@
    }
}

/// Decode one stored body for a listing.
pub fn decode_stored_body(s: &String) -> (r: String)
    ensures
        r@ == decoded_body(s@),
{
    if is_valid_json(s.as_str()) {
        s.clone()
    } else {
        let mut r: String = "{\"error\":\"Invalid JSON\",\"raw\":\"".to_owned();
        let esc = json_escape(s.as_str());
        r.append(esc.as_str());
        r.append("\"}");
        proof {
            assert(r@ =~= "{\"error\":\"Invalid JSON\",\"raw\":\""@ + json_escape_spec(s@)
                + "\"}"@);
        }
        r
    }
}

} // verus!
