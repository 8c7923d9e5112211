//! The two value-encoding primitives behind parameter encoding: the
//! quoted-string form with backslash escaping, and RFC 2231 percent
//! encoding of the value's UTF-8 bytes.

use vstd::prelude::*;
use crate::grammar::{
    MailType, all_ascii_chars, all_quotable, check_attr_byte, check_quotable_char, is_attr_byte,
    is_quotable_char, is_token, is_token_seq,
};
use crate::errors::NotRepresentable;
use vstd::utf8::encode_utf8;

verus! {

/// Relies on std's `String::push`: appends the given character at the end
/// of the string.
#[verifier::external_body]
pub(crate) fn push_char(buf: &mut String, c: char)
    ensures
        final(buf)@ == old(buf)@.push(c),
{
    buf.push(c);
}

/// How one character is written inside a quoted string: `"` and `\` get a
/// backslash escape, everything else stands for itself.
pub open spec fn esc_char(c: char) -> Seq<char> {
    if c == '"' || c == '\\' {
        seq!['\\', c]
    } else {
        seq![c]
    }
}

/// The body of the quoted-string form of `s`: every character escaped as
/// `esc_char` says, in order.
pub open spec fn escape_quoted(s: Seq<char>) -> Seq<char>
    decreases s.len(),
{
    if s.len() == 0 {
        seq![]
    } else {
        esc_char(s[0]) + escape_quoted(s.drop_first())
    }
}

/// The full quoted-string form of `s`: the escaped body wrapped in quote
/// marks.
pub open spec fn quoted_form(s: Seq<char>) -> Seq<char> {
    seq!['"'] + escape_quoted(s) + seq!['"']
}

pub proof fn lemma_escape_append(s: Seq<char>, c: char)
    ensures
        escape_quoted(s.push(c)) == escape_quoted(s) + esc_char(c),
    decreases s.len(),
{
    if s.len() == 0 {
        let e = Seq::<char>::empty();
        assert(s.push(c) =~= seq![c]);
        assert(seq![c].drop_first() =~= e);
        assert(escape_quoted(e) == Seq::<char>::empty());
        assert(escape_quoted(seq![c]) == esc_char(c) + escape_quoted(e));
        assert(escape_quoted(s.push(c)) =~= escape_quoted(s) + esc_char(c));
    } else {
        assert(s.push(c)[0] == s[0]);
        assert(s.push(c).drop_first() =~= s.drop_first().push(c));
        lemma_escape_append(s.drop_first(), c);
        assert(escape_quoted(s.push(c)) =~= escape_quoted(s) + esc_char(c));
    }
}

/// The hexadecimal digit for a value below 16, upper case as RFC 2231
/// examples use.
pub open spec fn hex_digit(n: u8) -> char {
    if n == 0 { '0' } else if n == 1 { '1' } else if n == 2 { '2' } else if n == 3 { '3' }
    else if n == 4 { '4' } else if n == 5 { '5' } else if n == 6 { '6' } else if n == 7 { '7' }
    else if n == 8 { '8' } else if n == 9 { '9' } else if n == 10 { 'A' } else if n == 11 { 'B' }
    else if n == 12 { 'C' } else if n == 13 { 'D' } else if n == 14 { 'E' } else { 'F' }
}

/// Executable `hex_digit`.
pub fn hex_digit_char(n: u8) -> (r: char)
    requires
        n < 16,
    ensures
        r == hex_digit(n),
{
    if n == 0 { '0' } else if n == 1 { '1' } else if n == 2 { '2' } else if n == 3 { '3' }
    else if n == 4 { '4' } else if n == 5 { '5' } else if n == 6 { '6' } else if n == 7 { '7' }
    else if n == 8 { '8' } else if n == 9 { '9' } else if n == 10 { 'A' } else if n == 11 { 'B' }
    else if n == 12 { 'C' } else if n == 13 { 'D' } else if n == 14 { 'E' } else { 'F' }
}

/// How one byte of the value's UTF-8 encoding is written in the percent
/// encoded form: an `attribute-char` stands for itself, any other byte
/// becomes `%` followed by its two hex digits.
pub open spec fn pct_of_byte(b: u8) -> Seq<char> {
    if is_attr_byte(b) {
        seq![b as char]
    } else {
        seq!['%', hex_digit(b / 16), hex_digit(b % 16)]
    }
}

/// The percent encoded form of a byte sequence.
pub open spec fn pct_of_bytes(bs: Seq<u8>) -> Seq<char>
    decreases bs.len(),
{
    if bs.len() == 0 {
        seq![]
    } else {
        pct_of_byte(bs[0]) + pct_of_bytes(bs.drop_first())
    }
}

pub proof fn lemma_pct_append(bs: Seq<u8>, b: u8)
    ensures
        pct_of_bytes(bs.push(b)) == pct_of_bytes(bs) + pct_of_byte(b),
    decreases bs.len(),
{
    if bs.len() == 0 {
        let e = Seq::<u8>::empty();
        assert(bs.push(b) =~= seq![b]);
        assert(seq![b].drop_first() =~= e);
        assert(pct_of_bytes(e) == Seq::<char>::empty());
        assert(pct_of_bytes(seq![b]) == pct_of_byte(b) + pct_of_bytes(e));
        assert(pct_of_bytes(bs.push(b)) =~= pct_of_bytes(bs) + pct_of_byte(b));
    } else {
        assert(bs.push(b)[0] == bs[0]);
        assert(bs.push(b).drop_first() =~= bs.drop_first().push(b));
        lemma_pct_append(bs.drop_first(), b);
        assert(pct_of_bytes(bs.push(b)) =~= pct_of_bytes(bs) + pct_of_byte(b));
    }
}

/// The percent encoded form of a character sequence: its UTF-8 bytes,
/// each written as `pct_of_byte` says.
pub open spec fn percent_encoded(s: Seq<char>) -> Seq<char> {
    pct_of_bytes(encode_utf8(s))
}

/// Percent encodes a parameter value per the RFC 2231 extended-parameter
/// syntax: every byte of the value's UTF-8 encoding that is not an
/// `attribute-char` becomes `%` plus two hex digits.
pub fn percent_encode_param_value(value: &str) -> (r: String)
    ensures
        r@ == percent_encoded(value@),
{
    let bytes = value.as_bytes_vec();
    let mut out = String::new();
    let mut i: usize = 0;
    proof {
        assert(bytes@.take(0) =~= Seq::<u8>::empty());
    }
    while i < bytes.len()
        invariant
            0 <= i <= bytes@.len(),
            bytes@ == encode_utf8(value@),
            out@ == pct_of_bytes(bytes@.take(i as int)),
        decreases bytes@.len() - i,
    {
        let b = bytes[i];
        proof {
            assert(bytes@.take(i + 1) =~= bytes@.take(i as int).push(bytes@[i as int]));
            lemma_pct_append(bytes@.take(i as int), bytes@[i as int]);
        }
        if check_attr_byte(b) {
            push_char(&mut out, b as char);
        } else {
            push_char(&mut out, '%');
            push_char(&mut out, hex_digit_char(b / 16));
            push_char(&mut out, hex_digit_char(b % 16));
        }
        i = i + 1;
    }
    proof {
        assert(bytes@.take(bytes@.len() as int) =~= bytes@);
    }
    out
}

/// Reports whether `value` can go on the wire without percent encoding
/// under the transport profile `tp`.
///
/// On success the result carries the profile the text actually needs
/// (`Internationalized` exactly when the value holds a non-ASCII
/// character) and the text to emit: the value itself when it is already a
/// token, its quoted-string form otherwise. The needed profile never
/// exceeds the requested one. Failure means some character is
/// representable neither raw nor quoted under `tp`.
pub fn quote_if_needed(value: &str, tp: MailType) -> (r: Result<(MailType, String), NotRepresentable>)
    ensures
        r is Ok <==> (is_token_seq(value@) || all_quotable(value@, tp)),
        r matches Ok(p) ==> p.1@ == (if is_token_seq(value@) {
            value@
        } else {
            quoted_form(value@)
        }),
        r matches Ok(p) ==> (p.0 is Internationalized <==> !all_ascii_chars(value@)),
        r matches Ok(p) ==> (tp is Ascii ==> p.0 is Ascii),
{
    let len = value.unicode_len();
    if is_token(value) {
        proof {
            assert forall|i: int| 0 <= i < value@.len() implies ((#[trigger] value@[i]) as u32) < 128 by {
                assert(crate::grammar::is_token_char(value@[i]));
            }
        }
        return Ok((MailType::Ascii, value.to_owned()));
    }
    let mut has_non_ascii = false;
    let mut i: usize = 0;
    while i < len
        invariant
            0 <= i <= len,
            len == value@.len(),
            forall|j: int| 0 <= j < i ==> is_quotable_char(#[trigger] value@[j], tp),
            has_non_ascii <==> exists|j: int| 0 <= j < i && (#[trigger] value@[j]) as u32 > 127,
        decreases len - i,
    {
        let c = value.get_char(i);
        if !check_quotable_char(c, tp) {
            return Err(NotRepresentable);
        }
        if c as u32 > 127 {
            has_non_ascii = true;
        }
        i = i + 1;
    }
    let mut out = String::new();
    push_char(&mut out, '"');
    proof {
        assert(value@.take(0) =~= Seq::<char>::empty());
        assert(out@ =~= seq!['"'] + escape_quoted(value@.take(0)));
    }
    let mut k: usize = 0;
    while k < len
        invariant
            0 <= k <= len,
            len == value@.len(),
            out@ == seq!['"'] + escape_quoted(value@.take(k as int)),
        decreases len - k,
    {
        let c = value.get_char(k);
        proof {
            assert(value@.take(k + 1) =~= value@.take(k as int).push(value@[k as int]));
            lemma_escape_append(value@.take(k as int), value@[k as int]);
        }
        if c == '"' || c == '\\' {
            push_char(&mut out, '\\');
        }
        push_char(&mut out, c);
        k = k + 1;
    }
    push_char(&mut out, '"');
    let got = if has_non_ascii {
        MailType::Internationalized
    } else {
        MailType::Ascii
    };
    proof {
        assert(value@.take(len as int) =~= value@);
        assert(out@ =~= quoted_form(value@));
        if !has_non_ascii {
            assert(all_ascii_chars(value@));
        }
    }
    Ok((got, out))
}

} // verus!
