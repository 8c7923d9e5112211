//! Character grammar for structured header values: the RFC 2045 `token`
//! class, the characters representable inside a quoted string, and the
//! RFC 2231 `attribute-char` class used by percent encoding.

use vstd::prelude::*;

verus! {

/// Transport profile of the mail being generated: `Ascii` means every byte
/// on the wire must be US-ASCII, `Internationalized` allows UTF-8 directly.
#[derive(Clone, Copy, Debug, PartialEq, Eq, Structural)]
pub enum MailType {
    Ascii,
    Internationalized,
}

/// The RFC 2045 `tspecials`: ASCII characters that may not appear in a token.
pub open spec fn is_tspecial(c: char) -> bool {
    c == '(' || c == ')' || c == '<' || c == '>' || c == '@' || c == ',' || c == ';' || c == ':'
        || c == '\\' || c == '"' || c == '/' || c == '[' || c == ']' || c == '?' || c == '='
}

/// A character allowed in an RFC 2045 token: printable US-ASCII that is
/// neither SPACE nor a tspecial.
pub open spec fn is_token_char(c: char) -> bool {
    33 <= c as u32 && c as u32 <= 126 && !is_tspecial(c)
}

/// A token: one or more token characters.
pub open spec fn is_token_seq(s: Seq<char>) -> bool {
    s.len() > 0 && forall|i: int| 0 <= i < s.len() ==> is_token_char(#[trigger] s[i])
}

/// Executable check of `is_tspecial`.
pub fn check_tspecial(c: char) -> (r: bool)
    ensures
        r == is_tspecial(c),
{
    c == '(' || c == ')' || c == '<' || c == '>' || c == '@' || c == ',' || c == ';' || c == ':'
        || c == '\\' || c == '"' || c == '/' || c == '[' || c == ']' || c == '?' || c == '='
}

/// Executable check of `is_token_char`.
pub fn check_token_char(c: char) -> (r: bool)
    ensures
        r == is_token_char(c),
{
    let n = c as u32;
    33 <= n && n <= 126 && !check_tspecial(c)
}

/// Decides whether `s` is an RFC 2045 token.
pub fn is_token(s: &str) -> (r: bool)
    ensures
        r == is_token_seq(s@),
{
    let len = s.unicode_len();
    if len == 0 {
        return false;
    }
    let mut i: usize = 0;
    while i < len
        invariant
            0 <= i <= len,
            len == s@.len(),
            forall|j: int| 0 <= j < i ==> is_token_char(#[trigger] s@[j]),
        decreases len - i,
    {
        let c = s.get_char(i);
        if !check_token_char(c) {
            return false;
        }
        i = i + 1;
    }
    true
}

/// Every character of `s` is US-ASCII.
pub open spec fn all_ascii_chars(s: Seq<char>) -> bool {
    forall|i: int| 0 <= i < s.len() ==> ((#[trigger] s[i]) as u32) < 128
}

/// A character representable inside a quoted string under the given
/// transport profile: printable US-ASCII (including SPACE), plus any
/// non-ASCII character when the profile is `Internationalized`.
/// Control characters are never representable.
pub open spec fn is_quotable_char(c: char, mt: MailType) -> bool {
    (32 <= c as u32 && c as u32 <= 126) || (mt is Internationalized && c as u32 > 127)
}

/// Every character of `s` is representable in a quoted string under `mt`.
pub open spec fn all_quotable(s: Seq<char>, mt: MailType) -> bool {
    forall|i: int| 0 <= i < s.len() ==> is_quotable_char(#[trigger] s[i], mt)
}

/// Executable check of `is_quotable_char`.
pub fn check_quotable_char(c: char, mt: MailType) -> (r: bool)
    ensures
        r == is_quotable_char(c, mt),
{
    let n = c as u32;
    (32 <= n && n <= 126) || (mt == MailType::Internationalized && n > 127)
}

/// Decides equality of two strings by their character sequences.
pub fn str_eq(a: &str, b: &str) -> (r: bool)
    ensures
        r == (a@ == b@),
{
    let la = a.unicode_len();
    let lb = b.unicode_len();
    if la != lb {
        proof {
            if a@ == b@ {
                assert(a@.len() == b@.len());
            }
        }
        return false;
    }
    let mut i: usize = 0;
    while i < la
        invariant
            0 <= i <= la,
            la == a@.len(),
            la == lb,
            lb == b@.len(),
            forall|j: int| 0 <= j < i ==> a@[j] == b@[j],
        decreases la - i,
    {
        if a.get_char(i) != b.get_char(i) {
            proof {
                if a@ == b@ {
                    assert(a@[i as int] == b@[i as int]);
                }
            }
            return false;
        }
        i = i + 1;
    }
    proof {
        assert(a@ =~= b@);
    }
    true
}

/// An RFC 2231 `attribute-char` as a byte: US-ASCII except SPACE, CTLs,
/// `*`, `'`, `%` and the tspecials. Bytes outside this class are percent
/// encoded.
pub open spec fn is_attr_byte(b: u8) -> bool {
    33 <= b && b <= 126 && b != 42 && b != 39 && b != 37 && !is_tspecial(b as char)
}

/// Executable check of `is_attr_byte`.
pub fn check_attr_byte(b: u8) -> (r: bool)
    ensures
        r == is_attr_byte(b),
{
    33 <= b && b <= 126 && b != 42 && b != 39 && b != 37 && !check_tspecial(b as char)
}

} // verus!
