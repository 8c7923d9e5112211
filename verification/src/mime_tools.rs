//! Parameter encoder and media-type builder: emits `;name=value`,
//! `;name="value"` or `;name*=utf8''value` segments per parameter, and
//! assembles full media-type values.

use vstd::prelude::*;
use crate::codec::{
    pct_of_byte, pct_of_bytes, percent_encode_param_value, percent_encoded, push_char,
    quote_if_needed, quoted_form,
};
use crate::errors::ComponentError;
use crate::grammar::{MailType, all_ascii_chars, all_quotable, is_attr_byte, is_token, is_token_seq};
use vstd::utf8::{encode_scalar, encode_utf8};

verus! {

/// Which of the three wire forms a parameter value gets: emitted verbatim,
/// wrapped in quote marks, or percent encoded with the RFC 2231 extended
/// syntax. The choice is a total function of the value and the transport
/// profile: see [`outcome_of`].
#[derive(Clone, Copy, Debug, PartialEq, Eq, Structural)]
pub enum EncodingOutcome {
    Raw,
    Quoted,
    PercentEncoded,
}

/// The wire form chosen for a value under a profile: a token is emitted
/// raw; otherwise a value whose characters all fit a quoted string under
/// the profile is quoted; everything else is percent encoded.
pub open spec fn outcome_of(value: Seq<char>, mt: MailType) -> EncodingOutcome {
    if is_token_seq(value) {
        EncodingOutcome::Raw
    } else if all_quotable(value, mt) {
        EncodingOutcome::Quoted
    } else {
        EncodingOutcome::PercentEncoded
    }
}

/// The marker and charset prefix of an RFC 2231 extended parameter:
/// `*=utf8''`.
pub open spec fn extended_prefix() -> Seq<char> {
    seq!['*', '=', 'u', 't', 'f', '8', '\'', '\'']
}

/// The complete wire text of one parameter: `;name=` followed by the raw
/// or quoted value, or `;name*=utf8''` followed by the percent encoded
/// value.
pub open spec fn param_segment(name: Seq<char>, value: Seq<char>, mt: MailType) -> Seq<char> {
    match outcome_of(value, mt) {
        EncodingOutcome::Raw => seq![';'] + name + seq!['='] + value,
        EncodingOutcome::Quoted => seq![';'] + name + seq!['='] + quoted_form(value),
        EncodingOutcome::PercentEncoded => seq![';'] + name + extended_prefix() + percent_encoded(
            value,
        ),
    }
}

/// The name/value views of a parameter list.
pub open spec fn pairs_view(ps: Seq<(String, String)>) -> Seq<(Seq<char>, Seq<char>)> {
    ps.map_values(|p: (String, String)| (p.0@, p.1@))
}

/// The wire text of a whole parameter list: the segments of its entries,
/// in the order given, with no separator beyond the `;` each segment
/// starts with.
pub open spec fn encoded_params(ps: Seq<(Seq<char>, Seq<char>)>, mt: MailType) -> Seq<char>
    decreases ps.len(),
{
    if ps.len() == 0 {
        seq![]
    } else {
        param_segment(ps[0].0, ps[0].1, mt) + encoded_params(ps.drop_first(), mt)
    }
}

pub proof fn lemma_encoded_params_append(
    ps: Seq<(Seq<char>, Seq<char>)>,
    p: (Seq<char>, Seq<char>),
    mt: MailType,
)
    ensures
        encoded_params(ps.push(p), mt) == encoded_params(ps, mt) + param_segment(p.0, p.1, mt),
    decreases ps.len(),
{
    if ps.len() == 0 {
        let e = Seq::<(Seq<char>, Seq<char>)>::empty();
        assert(ps.push(p) =~= seq![p]);
        assert(seq![p].drop_first() =~= e);
        assert(encoded_params(e, mt) == Seq::<char>::empty());
        assert(encoded_params(seq![p], mt) == param_segment(p.0, p.1, mt) + encoded_params(e, mt));
        assert(encoded_params(ps.push(p), mt) =~= encoded_params(ps, mt) + param_segment(
            p.0,
            p.1,
            mt,
        ));
    } else {
        assert(ps.push(p)[0] == ps[0]);
        assert(ps.push(p).drop_first() =~= ps.drop_first().push(p));
        lemma_encoded_params_append(ps.drop_first(), p, mt);
        assert(encoded_params(ps.push(p), mt) =~= encoded_params(ps, mt) + param_segment(
            p.0,
            p.1,
            mt,
        ));
    }
}

/// The UTF-8 encoding of a text is at least as long as the text, and
/// strictly longer when some character is outside ASCII.
proof fn lemma_utf8_len(s: Seq<char>)
    ensures
        encode_utf8(s).len() >= s.len(),
        (exists|i: int| 0 <= i < s.len() && (#[trigger] s[i]) as u32 >= 128) ==> encode_utf8(
            s,
        ).len() > s.len(),
    decreases s.len(),
{
    if s.len() > 0 {
        lemma_utf8_len(s.drop_first());
        if exists|i: int| 0 <= i < s.len() && (#[trigger] s[i]) as u32 >= 128 {
            let i = choose|i: int| 0 <= i < s.len() && (#[trigger] s[i]) as u32 >= 128;
            if i == 0 {
                assert(encode_scalar(s[0] as u32).len() >= 2);
            } else {
                assert(s.drop_first()[i - 1] as u32 >= 128);
            }
        }
    }
}

/// The percent encoded form of bytes is at least as long as the bytes,
/// and strictly longer when some byte is not an `attribute-char`.
proof fn lemma_pct_len(bs: Seq<u8>)
    ensures
        pct_of_bytes(bs).len() >= bs.len(),
        (exists|i: int| 0 <= i < bs.len() && !is_attr_byte(#[trigger] bs[i])) ==> pct_of_bytes(
            bs,
        ).len() > bs.len(),
    decreases bs.len(),
{
    if bs.len() > 0 {
        lemma_pct_len(bs.drop_first());
        if exists|i: int| 0 <= i < bs.len() && !is_attr_byte(#[trigger] bs[i]) {
            let i = choose|i: int| 0 <= i < bs.len() && !is_attr_byte(#[trigger] bs[i]);
            if i == 0 {
                assert(pct_of_byte(bs[0]).len() == 3);
            } else {
                assert(!is_attr_byte(bs.drop_first()[i - 1]));
            }
        }
    }
}

/// For ASCII text, the percent encoded form is at least as long as the
/// text, and strictly longer when some character's byte is not an
/// `attribute-char`.
proof fn lemma_pct_ascii(s: Seq<char>)
    requires
        all_ascii_chars(s),
    ensures
        pct_of_bytes(encode_utf8(s)).len() >= s.len(),
        (exists|i: int|
            0 <= i < s.len() && !is_attr_byte((((#[trigger] s[i]) as u32) as u8))) ==> pct_of_bytes(
            encode_utf8(s),
        ).len() > s.len(),
    decreases s.len(),
{
    if s.len() > 0 {
        let c0 = s[0] as u32;
        assert(c0 < 128);
        assert(vstd::utf8::has_width_1_encoding(c0));
        let b0 = vstd::utf8::leading_byte_width_1(c0);
        assert(c0 < 128 ==> (c0 & 0x7F) == c0) by (bit_vector);
        assert(b0 == c0 as u8);
        assert(encode_scalar(c0) =~= seq![b0]);
        assert(encode_utf8(s) =~= seq![b0] + encode_utf8(s.drop_first()));
        assert((seq![b0] + encode_utf8(s.drop_first())).drop_first() =~= encode_utf8(
            s.drop_first(),
        ));
        assert(pct_of_bytes(encode_utf8(s)) == pct_of_byte(b0) + pct_of_bytes(
            encode_utf8(s.drop_first()),
        ));
        lemma_pct_ascii(s.drop_first());
        if exists|i: int| 0 <= i < s.len() && !is_attr_byte((((#[trigger] s[i]) as u32) as u8)) {
            let w = choose|i: int|
                0 <= i < s.len() && !is_attr_byte((((#[trigger] s[i]) as u32) as u8));
            if w == 0 {
                assert(!is_attr_byte(b0));
                assert(pct_of_byte(b0).len() == 3);
            } else {
                assert(!is_attr_byte(((s.drop_first()[w - 1] as u32) as u8)));
            }
        }
    }
}

/// The internal-consistency guarantee behind the extended form: whenever
/// the quoting decision rejects a value (so percent encoding is invoked),
/// the percent encoded form differs from the value — the two subsystems
/// cannot silently disagree.
pub proof fn lemma_percent_encoding_changes(value: Seq<char>, mt: MailType)
    requires
        outcome_of(value, mt) is PercentEncoded,
    ensures
        percent_encoded(value) != value,
{
    let bytes = encode_utf8(value);
    assert(!all_quotable(value, mt));
    let w = choose|i: int|
        0 <= i < value.len() && !crate::grammar::is_quotable_char(#[trigger] value[i], mt);
    let c = value[w];
    lemma_utf8_len(value);
    lemma_pct_len(bytes);
    if !all_ascii_chars(value) {
        let k = choose|i: int| 0 <= i < value.len() && !(((#[trigger] value[i]) as u32) < 128);
        assert(value[k] as u32 >= 128);
        assert(exists|i: int| 0 <= i < value.len() && (#[trigger] value[i]) as u32 >= 128);
        assert(bytes.len() > value.len());
        assert(percent_encoded(value).len() > value.len());
    } else {
        assert((c as u32) < 32 || c as u32 == 127);
        assert(!is_attr_byte(((value[w] as u32) as u8)));
        lemma_pct_ascii(value);
        assert(percent_encoded(value).len() > value.len());
    }
}

/// Encoding is deterministic and repeatable: the emitted text is a
/// function of the entries' text and the transport profile alone, so two
/// parameter lists that read the same encode to byte-identical output —
/// in particular, encoding the same list twice under the same profile.
pub proof fn lemma_encoding_deterministic(
    ps1: Seq<(String, String)>,
    ps2: Seq<(String, String)>,
    mt: MailType,
)
    requires
        pairs_view(ps1) == pairs_view(ps2),
    ensures
        encoded_params(pairs_view(ps1), mt) == encoded_params(pairs_view(ps2), mt),
{
}

/// The names of the first `n` entries are all tokens.
pub open spec fn names_valid_upto(ps: Seq<(String, String)>, n: int) -> bool {
    forall|j: int| 0 <= j < n ==> is_token_seq(#[trigger] ps[j].0@)
}

/// Encodes one parameter and appends its wire text to `buf`.
///
/// The name must be a token; a non-token name is rejected with
/// `InvalidToken` and `buf` is left unchanged. The value may be any text:
/// it is emitted raw, quoted, or percent encoded, exactly as
/// [`param_segment`] describes for the given profile.
pub fn create_encoded_mime_parameter(
    name: &str,
    value: &str,
    buf: &mut String,
    tp: MailType,
) -> (r: Result<(), ComponentError>)
    ensures
        r is Ok <==> is_token_seq(name@),
        r is Ok ==> final(buf)@ == old(buf)@ + param_segment(name@, value@, tp),
        r matches Err(e) ==> {
            &&& final(buf)@ == old(buf)@
            &&& e matches ComponentError::InvalidToken(n) && n@ == name@
        },
{
    if !is_token(name) {
        return Err(ComponentError::InvalidToken(name.to_owned()));
    }
    match quote_if_needed(value, tp) {
        Ok(p) => {
            let text = p.1;
            push_char(buf, ';');
            buf.append(name);
            push_char(buf, '=');
            buf.append(text.as_str());
            proof {
                assert(buf@ =~= old(buf)@ + param_segment(name@, value@, tp));
            }
        },
        Err(_) => {
            let enc = percent_encode_param_value(value);
            push_char(buf, ';');
            buf.append(name);
            buf.append("*=utf8''");
            buf.append(enc.as_str());
            proof {
                reveal_strlit("*=utf8''");
                assert("*=utf8''"@ =~= extended_prefix());
                assert(buf@ =~= old(buf)@ + param_segment(name@, value@, tp));
            }
        },
    }
    Ok(())
}

/// Encodes an ordered parameter list, appending one segment per entry to
/// `buf`, strictly in the order given, with no reordering and no
/// deduplication.
///
/// The first entry whose name is not a token stops the encoding: the
/// segments of the entries before it have been appended, nothing of it or
/// of later entries is, and its name is reported in `InvalidToken`.
pub fn create_mime_parameters(
    params: &Vec<(String, String)>,
    buf: &mut String,
    tp: MailType,
) -> (r: Result<(), ComponentError>)
    ensures
        r is Ok <==> names_valid_upto(params@, params@.len() as int),
        r is Ok ==> final(buf)@ == old(buf)@ + encoded_params(pairs_view(params@), tp),
        r matches Err(e) ==> exists|i: int|
            {
                &&& 0 <= i < params@.len()
                &&& names_valid_upto(params@, i)
                &&& !is_token_seq(#[trigger] params@[i].0@)
                &&& e matches ComponentError::InvalidToken(n) && n@ == params@[i].0@
                &&& final(buf)@ == old(buf)@ + encoded_params(pairs_view(params@).take(i), tp)
            },
{
    let len = params.len();
    let mut i: usize = 0;
    proof {
        assert(pairs_view(params@).take(0) =~= Seq::<(Seq<char>, Seq<char>)>::empty());
    }
    while i < len
        invariant
            0 <= i <= len,
            len == params@.len(),
            names_valid_upto(params@, i as int),
            buf@ == old(buf)@ + encoded_params(pairs_view(params@).take(i as int), tp),
        decreases len - i,
    {
        let pair = &params[i];
        let r = create_encoded_mime_parameter(pair.0.as_str(), pair.1.as_str(), buf, tp);
        match r {
            Ok(()) => {
                proof {
                    let pv = pairs_view(params@);
                    assert(pv.take(i + 1) =~= pv.take(i as int).push(pv[i as int]));
                    lemma_encoded_params_append(pv.take(i as int), pv[i as int], tp);
                }
            },
            Err(e) => {
                proof {
                    let wi = i as int;
                    assert(0 <= wi < params@.len());
                    assert(names_valid_upto(params@, wi));
                    assert(!is_token_seq(params@[wi].0@));
                    assert(buf@ == old(buf)@ + encoded_params(pairs_view(params@).take(wi), tp));
                }
                return Err(e);
            },
        }
        i = i + 1;
    }
    proof {
        assert(pairs_view(params@).take(len as int) =~= pairs_view(params@));
    }
    Ok(())
}

/// The whole wire text of a media type: `type/subtype` followed by the
/// encoded parameter list.
pub open spec fn media_type_text(
    t: Seq<char>,
    st: Seq<char>,
    ps: Seq<(Seq<char>, Seq<char>)>,
    mt: MailType,
) -> Seq<char> {
    t + seq!['/'] + st + encoded_params(ps, mt)
}

#[verifier::external_type_specification]
#[verifier::external_body]
pub struct ExMime(mime::Mime);

#[verifier::external_type_specification]
#[verifier::external_body]
pub struct ExFromStrError(mime::FromStrError);

/// Whether the `mime` crate's parser accepts the given text as a media
/// type.
pub uninterp spec fn mime_parse_accepts(s: Seq<char>) -> bool;

/// Relies on the `mime` crate's `FromStr` impl for `Mime`, which calls
/// `parse::parse`: whether a string parses as a media type is a function
/// of the string alone.
#[verifier::external_body]
fn parse_mime(s: &str) -> (r: Result<mime::Mime, mime::FromStrError>)
    ensures
        r is Ok <==> mime_parse_accepts(s@),
{
    s.parse::<mime::Mime>()
}

/// The `mime` crate's parse error, re-exported under a type of this
/// library so that callers can name it.
#[derive(Debug)]
pub struct MimeFromStrError(pub mime::FromStrError);

/// How `create_mime` fails.
#[derive(Debug)]
pub enum CreateMimeError {
    /// The type, the subtype or a parameter name is not a token: a
    /// recoverable, input-dependent error.
    InvalidToken(String),
    /// The assembled text was rejected by the media-type parser. The
    /// emitters only produce syntactically valid media-type text, so this
    /// reports an internal inconsistency between this library and the
    /// `mime` crate's grammar, not a condition a caller can provoke.
    GeneratedUnparsable(MimeFromStrError),
}

/// Builds a complete media-type value: validates `_type` and `subtype` as
/// tokens, writes `type/subtype`, appends the encoded parameter list, and
/// parses the assembled text into a structured `mime::Mime` value.
///
/// The ensures pin the text handed to the parser exactly:
/// [`media_type_text`] of the views of the inputs.
pub fn create_mime(
    _type: &str,
    subtype: &str,
    params: &Vec<(String, String)>,
    mt: MailType,
) -> (r: Result<mime::Mime, CreateMimeError>)
    ensures
        r is Ok <==> {
            &&& is_token_seq(_type@)
            &&& is_token_seq(subtype@)
            &&& names_valid_upto(params@, params@.len() as int)
            &&& mime_parse_accepts(
                media_type_text(_type@, subtype@, pairs_view(params@), mt),
            )
        },
        r matches Err(CreateMimeError::InvalidToken(n)) ==> {
            ||| !is_token_seq(_type@) && n@ == _type@
            ||| is_token_seq(_type@) && !is_token_seq(subtype@) && n@ == subtype@
            ||| {
                &&& is_token_seq(_type@) && is_token_seq(subtype@)
                &&& exists|i: int|
                    {
                        &&& 0 <= i < params@.len()
                        &&& names_valid_upto(params@, i)
                        &&& !is_token_seq(#[trigger] params@[i].0@)
                        &&& n@ == params@[i].0@
                    }
            }
        },
        r matches Err(CreateMimeError::GeneratedUnparsable(_)) ==> {
            &&& is_token_seq(_type@)
            &&& is_token_seq(subtype@)
            &&& names_valid_upto(params@, params@.len() as int)
            &&& !mime_parse_accepts(media_type_text(_type@, subtype@, pairs_view(params@), mt))
        },
{
    if !is_token(_type) {
        return Err(CreateMimeError::InvalidToken(_type.to_owned()));
    }
    if !is_token(subtype) {
        return Err(CreateMimeError::InvalidToken(subtype.to_owned()));
    }
    let mut text = _type.to_owned();
    push_char(&mut text, '/');
    text.append(subtype);
    let ghost head = _type@ + seq!['/'] + subtype@;
    proof {
        assert(text@ =~= head);
    }
    match create_mime_parameters(params, &mut text, mt) {
        Ok(()) => {},
        Err(ComponentError::InvalidToken(n)) => {
            return Err(CreateMimeError::InvalidToken(n));
        },
    }
    proof {
        assert(text@ =~= media_type_text(_type@, subtype@, pairs_view(params@), mt));
    }
    match parse_mime(text.as_str()) {
        Ok(m) => Ok(m),
        Err(e) => Err(CreateMimeError::GeneratedUnparsable(MimeFromStrError(e))),
    }
}

} // verus!
