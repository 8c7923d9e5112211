//! A verified reading of the wire fragments the encoders emit: parsers,
//! at the specification level, for parameter lists and media-type text,
//! and the round-trip proof that re-parsing emitted text recovers the
//! types, names and values that were encoded.

use vstd::prelude::*;
use crate::codec::{
    esc_char, escape_quoted, hex_digit, pct_of_byte, pct_of_bytes, quoted_form,
};
use crate::grammar::{is_attr_byte, is_token_char, is_token_seq};
use crate::mime_tools::{
    EncodingOutcome, encoded_params, media_type_text, outcome_of, param_segment,
};
use crate::MailType;
use vstd::utf8::{decode_utf8, encode_utf8, valid_utf8};

verus! {

/// The predicate of a token character, as a function value.
pub open spec fn token_char_pred() -> spec_fn(char) -> bool {
    |c: char| is_token_char(c)
}

/// The predicate of a character other than `;`, as a function value.
pub open spec fn not_semi_pred() -> spec_fn(char) -> bool {
    |c: char| c != ';'
}

/// The predicate of a character other than `/`, as a function value.
pub open spec fn not_slash_pred() -> spec_fn(char) -> bool {
    |c: char| c != '/'
}

/// The longest prefix of `s` whose characters all satisfy `p`.
pub open spec fn take_while(s: Seq<char>, p: spec_fn(char) -> bool) -> Seq<char>
    decreases s.len(),
{
    if s.len() == 0 {
        Seq::<char>::empty()
    } else if p(s[0]) {
        seq![s[0]] + take_while(s.drop_first(), p)
    } else {
        Seq::<char>::empty()
    }
}

pub proof fn lemma_take_while_exact(a: Seq<char>, b: Seq<char>, p: spec_fn(char) -> bool)
    requires
        forall|i: int| 0 <= i < a.len() ==> p(#[trigger] a[i]),
        b.len() > 0 ==> !p(b[0]),
    ensures
        take_while(a + b, p) == a,
    decreases a.len(),
{
    if a.len() == 0 {
        assert(a + b =~= b);
        assert(take_while(a + b, p) =~= a);
    } else {
        assert((a + b)[0] == a[0]);
        assert((a + b).drop_first() =~= a.drop_first() + b);
        lemma_take_while_exact(a.drop_first(), b, p);
        assert(take_while(a + b, p) =~= a);
    }
}

/// Reads the body of a quoted string after its opening quote mark: undoes
/// the backslash escapes and stops at the closing quote. Yields the
/// decoded value and what follows the closing quote.
pub open spec fn parse_quoted(s: Seq<char>) -> Option<(Seq<char>, Seq<char>)>
    decreases s.len(),
{
    if s.len() == 0 {
        None
    } else if s[0] == '"' {
        Some((Seq::<char>::empty(), s.drop_first()))
    } else if s[0] == '\\' {
        if s.len() >= 2 {
            match parse_quoted(s.skip(2)) {
                Some(p) => Some((seq![s[1]] + p.0, p.1)),
                None => None,
            }
        } else {
            None
        }
    } else {
        match parse_quoted(s.drop_first()) {
            Some(p) => Some((seq![s[0]] + p.0, p.1)),
            None => None,
        }
    }
}

/// Un-escaping the escaped body of a quoted string recovers the value,
/// whatever follows the closing quote.
pub proof fn lemma_quoted_round_trip(v: Seq<char>, rest: Seq<char>)
    ensures
        parse_quoted(escape_quoted(v) + seq!['"'] + rest) == Some((v, rest)),
    decreases v.len(),
{
    let s = escape_quoted(v) + seq!['"'] + rest;
    if v.len() == 0 {
        assert(escape_quoted(v) =~= Seq::<char>::empty());
        assert(s =~= seq!['"'] + rest);
        assert(s[0] == '"');
        assert(s.drop_first() =~= rest);
    } else {
        let c = v[0];
        let v1 = v.drop_first();
        assert(escape_quoted(v) == esc_char(c) + escape_quoted(v1));
        lemma_quoted_round_trip(v1, rest);
        if c == '"' || c == '\\' {
            assert(esc_char(c) =~= seq!['\\', c]);
            assert(s[0] == '\\');
            assert(s.len() >= 2);
            assert(s[1] == c);
            assert(s.skip(2) =~= escape_quoted(v1) + seq!['"'] + rest);
            assert(seq![c] + v1 =~= v);
        } else {
            assert(esc_char(c) =~= seq![c]);
            assert(s[0] == c);
            assert(c != '"' && c != '\\');
            assert(s.drop_first() =~= escape_quoted(v1) + seq!['"'] + rest);
            assert(seq![c] + v1 =~= v);
        }
    }
}

/// The value of an upper-case hexadecimal digit.
pub open spec fn hex_val(c: char) -> Option<u8> {
    if c == '0' { Some(0u8) } else if c == '1' { Some(1u8) } else if c == '2' { Some(2u8) }
    else if c == '3' { Some(3u8) } else if c == '4' { Some(4u8) } else if c == '5' { Some(5u8) }
    else if c == '6' { Some(6u8) } else if c == '7' { Some(7u8) } else if c == '8' { Some(8u8) }
    else if c == '9' { Some(9u8) } else if c == 'A' { Some(10u8) } else if c == 'B' { Some(11u8) }
    else if c == 'C' { Some(12u8) } else if c == 'D' { Some(13u8) } else if c == 'E' { Some(14u8) }
    else if c == 'F' { Some(15u8) } else { None }
}

/// A character that stands for an `attribute-char` byte of the percent
/// encoded form.
pub open spec fn is_attr_char(c: char) -> bool {
    (c as u32) < 128 && is_attr_byte(c as u8)
}

/// Reads a percent encoded body back into its bytes: `%` plus two hex
/// digits yield one byte, an `attribute-char` stands for its own byte.
pub open spec fn pct_decode(s: Seq<char>) -> Option<Seq<u8>>
    decreases s.len(),
{
    if s.len() == 0 {
        Some(Seq::<u8>::empty())
    } else if s[0] == '%' {
        if s.len() >= 3 {
            match (hex_val(s[1]), hex_val(s[2])) {
                (Some(h), Some(l)) => match pct_decode(s.skip(3)) {
                    Some(bs) => Some(seq![(16 * (h as int) + (l as int)) as u8] + bs),
                    None => None,
                },
                _ => None,
            }
        } else {
            None
        }
    } else if is_attr_char(s[0]) {
        match pct_decode(s.drop_first()) {
            Some(bs) => Some(seq![s[0] as u8] + bs),
            None => None,
        }
    } else {
        None
    }
}

/// No character of a percent encoded body is a `;`.
pub proof fn lemma_pct_no_semicolon(bs: Seq<u8>)
    ensures
        forall|i: int| 0 <= i < pct_of_bytes(bs).len() ==> #[trigger] pct_of_bytes(bs)[i] != ';',
    decreases bs.len(),
{
    if bs.len() == 0 {
    } else {
        let b = bs[0];
        assert(forall|i: int| 0 <= i < pct_of_byte(b).len() ==> #[trigger] pct_of_byte(b)[i] != ';');
        lemma_pct_no_semicolon(bs.drop_first());
        assert(pct_of_bytes(bs) == pct_of_byte(b) + pct_of_bytes(bs.drop_first()));
    }
}

/// Decoding a percent encoded byte sequence recovers the bytes.
pub proof fn lemma_pct_decode_round_trip(bs: Seq<u8>)
    ensures
        pct_decode(pct_of_bytes(bs)) == Some(bs),
    decreases bs.len(),
{
    let s = pct_of_bytes(bs);
    if bs.len() == 0 {
        assert(s =~= Seq::<char>::empty());
    } else {
        let b = bs[0];
        let bs1 = bs.drop_first();
        assert(s == pct_of_byte(b) + pct_of_bytes(bs1));
        lemma_pct_decode_round_trip(bs1);
        if is_attr_byte(b) {
            assert(pct_of_byte(b) =~= seq![b as char]);
            assert(s[0] == b as char);
            assert(s[0] != '%');
            assert(is_attr_char(s[0]));
            assert(s.drop_first() =~= pct_of_bytes(bs1));
            assert(s[0] as u8 == b);
            assert(seq![b] + bs1 =~= bs);
        } else {
            assert(pct_of_byte(b) =~= seq!['%', hex_digit(b / 16), hex_digit(b % 16)]);
            assert(s[0] == '%');
            assert(s.len() >= 3);
            assert(s[1] == hex_digit(b / 16));
            assert(s[2] == hex_digit(b % 16));
            assert(hex_val(hex_digit(b / 16)) == Some((b / 16) as u8));
            assert(hex_val(hex_digit(b % 16)) == Some((b % 16) as u8));
            assert(s.skip(3) =~= pct_of_bytes(bs1));
            assert(16 * ((b / 16) as int) + ((b % 16) as int) == b as int) by (nonlinear_arith);
            assert(seq![b] + bs1 =~= bs);
        }
    }
}

/// Reads one `;name=value` / `;name="value"` / `;name*=utf8''value`
/// segment from the front of `s`: yields the name, the decoded value and
/// what follows the segment.
pub open spec fn parse_segment(s: Seq<char>) -> Option<((Seq<char>, Seq<char>), Seq<char>)> {
    if s.len() == 0 || s[0] != ';' {
        None
    } else {
        let t = s.drop_first();
        let name_ext = take_while(t, token_char_pred());
        let u = t.skip(name_ext.len() as int);
        if name_ext.len() == 0 {
            None
        } else if name_ext.last() == '*' {
            let name = name_ext.drop_last();
            if name.len() == 0 {
                None
            } else if u.len() >= 7 && u.subrange(0, 7) == seq!['=', 'u', 't', 'f', '8', '\'', '\''] {
                let body = take_while(u.skip(7), not_semi_pred());
                let rest = u.skip(7 + body.len() as int);
                match pct_decode(body) {
                    Some(bs) => if valid_utf8(bs) {
                        Some(((name, decode_utf8(bs)), rest))
                    } else {
                        None
                    },
                    None => None,
                }
            } else {
                None
            }
        } else {
            if u.len() == 0 || u[0] != '=' {
                None
            } else {
                let w = u.drop_first();
                if w.len() > 0 && w[0] == '"' {
                    match parse_quoted(w.drop_first()) {
                        Some(p) => Some(((name_ext, p.0), p.1)),
                        None => None,
                    }
                } else {
                    let raw = take_while(w, not_semi_pred());
                    Some(((name_ext, raw), w.skip(raw.len() as int)))
                }
            }
        }
    }
}

/// Reads a whole parameter list: one segment after the other, to the end
/// of the text.
pub open spec fn parse_params(s: Seq<char>) -> Option<Seq<(Seq<char>, Seq<char>)>>
    decreases s.len(),
{
    if s.len() == 0 {
        Some(Seq::<(Seq<char>, Seq<char>)>::empty())
    } else {
        match parse_segment(s) {
            Some(p) => if p.1.len() < s.len() {
                match parse_params(p.1) {
                    Some(tail) => Some(seq![p.0] + tail),
                    None => None,
                }
            } else {
                None
            },
            None => None,
        }
    }
}

/// Reads media-type text: `type/subtype` followed by a parameter list.
pub open spec fn parse_media_type(s: Seq<char>) -> Option<
    (Seq<char>, Seq<char>, Seq<(Seq<char>, Seq<char>)>),
> {
    let t = take_while(s, not_slash_pred());
    let u = s.skip(t.len() as int);
    if u.len() == 0 || u[0] != '/' {
        None
    } else {
        let st = take_while(u.drop_first(), not_semi_pred());
        let rest = u.drop_first().skip(st.len() as int);
        if is_token_seq(t) && is_token_seq(st) {
            match parse_params(rest) {
                Some(ps) => Some((t, st, ps)),
                None => None,
            }
        } else {
            None
        }
    }
}

/// Re-parsing one emitted parameter segment recovers the name and the
/// value, whatever segment text follows. Names ending in `*` are
/// excluded: on the wire a trailing `*` is the extended-parameter marker,
/// so such a name cannot be told apart from the extended form of the name
/// without the `*`.
#[verifier::rlimit(100)]
#[verifier::spinoff_prover]
pub proof fn lemma_segment_round_trip(
    name: Seq<char>,
    value: Seq<char>,
    mt: MailType,
    rest: Seq<char>,
)
    requires
        is_token_seq(name),
        name.last() != '*',
        rest.len() > 0 ==> rest[0] == ';',
    ensures
        parse_segment(param_segment(name, value, mt) + rest) == Some(((name, value), rest)),
{
    let s = param_segment(name, value, mt) + rest;
    assert(s[0] == ';');
    let t = s.drop_first();
    match outcome_of(value, mt) {
        EncodingOutcome::Raw => {
            assert(t =~= name + (seq!['='] + value + rest));
            lemma_take_while_exact(name, seq!['='] + value + rest, token_char_pred());
            let u = t.skip(name.len() as int);
            assert(u =~= seq!['='] + value + rest);
            assert(name.last() != '*');
            assert(u[0] == '=');
            let w = u.drop_first();
            assert(w =~= value + rest);
            assert(value.len() > 0 && is_token_char(value[0]));
            assert(w[0] != '"');
            lemma_take_while_exact(value, rest, not_semi_pred());
            assert(take_while(w, not_semi_pred()) == value);
            assert(w.skip(value.len() as int) =~= rest);
        },
        EncodingOutcome::Quoted => {
            assert(t =~= name + (seq!['='] + quoted_form(value) + rest));
            lemma_take_while_exact(name, seq!['='] + quoted_form(value) + rest, token_char_pred());
            let u = t.skip(name.len() as int);
            assert(u =~= seq!['='] + quoted_form(value) + rest);
            assert(u[0] == '=');
            let w = u.drop_first();
            assert(w =~= quoted_form(value) + rest);
            assert(w[0] == '"');
            assert(w.drop_first() =~= escape_quoted(value) + seq!['"'] + rest);
            lemma_quoted_round_trip(value, rest);
        },
        EncodingOutcome::PercentEncoded => {
            let bytes = encode_utf8(value);
            let pct = pct_of_bytes(bytes);
            assert(t =~= name.push('*') + (seq!['=', 'u', 't', 'f', '8', '\'', '\''] + pct + rest));
            assert(forall|i: int|
                0 <= i < name.push('*').len() ==> is_token_char(#[trigger] name.push('*')[i]));
            lemma_take_while_exact(
                name.push('*'),
                seq!['=', 'u', 't', 'f', '8', '\'', '\''] + pct + rest,
                token_char_pred(),
            );
            let name_ext = take_while(t, token_char_pred());
            assert(name_ext == name.push('*'));
            assert(name_ext.len() > 0 && name_ext.last() == '*');
            assert(name_ext.drop_last() =~= name);
            let u = t.skip(name_ext.len() as int);
            assert(u =~= seq!['=', 'u', 't', 'f', '8', '\'', '\''] + pct + rest);
            assert(u.subrange(0, 7) =~= seq!['=', 'u', 't', 'f', '8', '\'', '\'']);
            assert(u.skip(7) =~= pct + rest);
            lemma_pct_no_semicolon(bytes);
            lemma_take_while_exact(pct, rest, not_semi_pred());
            assert(take_while(u.skip(7), not_semi_pred()) == pct);
            assert(u.skip(7 + pct.len() as int) =~= rest);
            lemma_pct_decode_round_trip(bytes);
            vstd::utf8::encode_utf8_valid_utf8(value);
            vstd::utf8::encode_utf8_decode_utf8(value);
        },
    }
}

/// Every name of the list is a token not ending in `*`.
pub open spec fn names_parseable(ps: Seq<(Seq<char>, Seq<char>)>) -> bool {
    forall|i: int|
        0 <= i < ps.len() ==> is_token_seq((#[trigger] ps[i]).0) && ps[i].0.last() != '*'
}

/// The emitted text of a parameter list is empty or starts with `;`.
pub proof fn lemma_encoded_params_shape(ps: Seq<(Seq<char>, Seq<char>)>, mt: MailType)
    ensures
        encoded_params(ps, mt).len() > 0 ==> encoded_params(ps, mt)[0] == ';',
        ps.len() > 0 ==> encoded_params(ps, mt).len() > 0,
{
    if ps.len() > 0 {
        assert(encoded_params(ps, mt) == param_segment(ps[0].0, ps[0].1, mt) + encoded_params(
            ps.drop_first(),
            mt,
        ));
        assert(param_segment(ps[0].0, ps[0].1, mt)[0] == ';');
    }
}

/// Re-parsing the emitted text of a whole parameter list recovers every
/// name and value, in order.
pub proof fn lemma_params_round_trip(ps: Seq<(Seq<char>, Seq<char>)>, mt: MailType)
    requires
        names_parseable(ps),
    ensures
        parse_params(encoded_params(ps, mt)) == Some(ps),
    decreases ps.len(),
{
    if ps.len() == 0 {
    } else {
        let seg = param_segment(ps[0].0, ps[0].1, mt);
        let rest = encoded_params(ps.drop_first(), mt);
        let s = encoded_params(ps, mt);
        assert(s == seg + rest);
        lemma_encoded_params_shape(ps.drop_first(), mt);
        lemma_segment_round_trip(ps[0].0, ps[0].1, mt, rest);
        assert(seg[0] == ';');
        assert(s.len() > 0);
        assert(rest.len() < s.len());
        assert(names_parseable(ps.drop_first()));
        lemma_params_round_trip(ps.drop_first(), mt);
        assert(seq![ps[0]] + ps.drop_first() =~= ps);
    }
}

/// Re-parsing the emitted text of a whole media type recovers the type,
/// the subtype and the parameter list: the round trip of the media-type
/// builder, proved for every valid input (token type and subtype, token
/// parameter names not ending in `*`, arbitrary values, either profile).
pub proof fn lemma_media_type_round_trip(
    t: Seq<char>,
    st: Seq<char>,
    ps: Seq<(Seq<char>, Seq<char>)>,
    mt: MailType,
)
    requires
        is_token_seq(t),
        is_token_seq(st),
        names_parseable(ps),
    ensures
        parse_media_type(media_type_text(t, st, ps, mt)) == Some((t, st, ps)),
{
    let params = encoded_params(ps, mt);
    let s = media_type_text(t, st, ps, mt);
    assert(s =~= t + (seq!['/'] + st + params));
    lemma_take_while_exact(t, seq!['/'] + st + params, not_slash_pred());
    let u = s.skip(t.len() as int);
    assert(u =~= seq!['/'] + st + params);
    assert(u[0] == '/');
    assert(u.drop_first() =~= st + params);
    lemma_encoded_params_shape(ps, mt);
    lemma_take_while_exact(st, params, not_semi_pred());
    assert(take_while(u.drop_first(), not_semi_pred()) == st);
    assert(u.drop_first().skip(st.len() as int) =~= params);
    lemma_params_round_trip(ps, mt);
}

} // verus!
