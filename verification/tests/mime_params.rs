use mail_codec::MailType;
use mail_codec::mime_tools::{
    CreateMimeError, create_encoded_mime_parameter, create_mime, create_mime_parameters,
};
use mail_codec::codec::{percent_encode_param_value, quote_if_needed};
use mail_codec::errors::ComponentError;
use mail_codec::grammar::is_token;

fn pairs(ps: &[(&str, &str)]) -> Vec<(String, String)> {
    ps.iter().map(|(k, v)| (k.to_string(), v.to_string())).collect()
}

#[test]
fn mime_param_simple() {
    let params = pairs(&[("time", "unknown"), ("brain", "missing")]);
    let mut out = String::new();
    let res = create_mime_parameters(&params, &mut out, MailType::Ascii);
    assert!(res.is_ok());

    assert_eq!(";time=unknown;brain=missing", out.as_str())
}

#[test]
fn mime_param_quoted() {
    let params = pairs(&[("time", "unknown think"), ("brain", "missing")]);
    let mut out = String::new();
    let res = create_mime_parameters(&params, &mut out, MailType::Ascii);
    assert!(res.is_ok());

    assert_eq!(";time=\"unknown think\";brain=missing", out.as_str())
}

#[test]
fn mime_param_quoted_utf8() {
    let params = pairs(&[("time", "unknown ü\""), ("brain", "missing")]);
    let mut out = String::new();
    let res = create_mime_parameters(&params, &mut out, MailType::Internationalized);
    assert!(res.is_ok());

    assert_eq!(r#";time="unknown ü\"";brain=missing"#, out.as_str())
}

#[test]
fn mime_param_encoded_in_ascii_but_not_in_utf8() {
    let params = pairs(&[("time", "unknown ü\""), ("brain", "missing")]);
    let mut out = String::new();
    let res = create_mime_parameters(&params, &mut out, MailType::Ascii);
    assert!(res.is_ok());

    assert_eq!(r#";time*=utf8''unknown%20%C3%BC%22;brain=missing"#, out.as_str())
}

#[test]
fn mime_param_always_encoded() {
    let params = pairs(&[("filename", "u\x01\x02ps")]);
    let mut out = String::new();
    let res = create_mime_parameters(&params, &mut out, MailType::Internationalized);
    assert!(res.is_ok());

    assert_eq!(";filename*=utf8''u%01%02ps", out.as_str())
}

#[test]
fn invalid_name_rejected_and_buffer_kept() {
    let params = pairs(&[("time", "unknown"), ("bad name", "x")]);
    let mut out = String::new();
    let res = create_mime_parameters(&params, &mut out, MailType::Ascii);
    assert_eq!(res, Err(ComponentError::InvalidToken("bad name".to_string())));
    // the entry before the offending one has been emitted, nothing further
    assert_eq!(";time=unknown", out.as_str());
}

#[test]
fn single_parameter_segment() {
    let mut out = String::new();
    let res = create_encoded_mime_parameter("charset", "utf-8", &mut out, MailType::Ascii);
    assert!(res.is_ok());
    assert_eq!(";charset=utf-8", out.as_str());
}

#[test]
fn empty_value_is_quoted() {
    let mut out = String::new();
    let res = create_encoded_mime_parameter("name", "", &mut out, MailType::Ascii);
    assert!(res.is_ok());
    assert_eq!(";name=\"\"", out.as_str());
}

#[test]
fn encoding_is_idempotent() {
    let params = pairs(&[("time", "unknown ü\""), ("brain", "mi ssing")]);
    let mut first = String::new();
    let mut second = String::new();
    assert!(create_mime_parameters(&params, &mut first, MailType::Ascii).is_ok());
    assert!(create_mime_parameters(&params, &mut second, MailType::Ascii).is_ok());
    assert_eq!(first, second);
}

#[test]
fn percent_encoding_formula() {
    assert_eq!("%C3%BC", percent_encode_param_value("ü").as_str());
    assert_eq!("abc", percent_encode_param_value("abc").as_str());
    assert_eq!("a%20b", percent_encode_param_value("a b").as_str());
    assert_eq!("%01", percent_encode_param_value("\x01").as_str());
}

#[test]
fn quoting_decisions() {
    assert!(is_token("simple"));
    assert!(!is_token("a b"));
    assert!(!is_token(""));

    let raw = quote_if_needed("simple", MailType::Ascii).unwrap();
    assert_eq!(raw.0, MailType::Ascii);
    assert_eq!(raw.1.as_str(), "simple");

    let quoted = quote_if_needed("a b", MailType::Ascii).unwrap();
    assert_eq!(quoted.1.as_str(), "\"a b\"");

    let intl = quote_if_needed("aü", MailType::Internationalized).unwrap();
    assert_eq!(intl.0, MailType::Internationalized);
    assert_eq!(intl.1.as_str(), "\"aü\"");

    assert!(quote_if_needed("aü", MailType::Ascii).is_err());
    assert!(quote_if_needed("a\x01", MailType::Internationalized).is_err());
}

#[test]
fn media_type_round_trip() {
    let params = pairs(&[("charset", "utf-8"), ("random", "alot")]);
    let m = create_mime("text", "wtf", &params, MailType::Ascii).unwrap();
    assert_eq!("text", m.type_().as_str());
    assert_eq!("wtf", m.subtype().as_str());
    assert_eq!(Some("utf-8"), m.get_param("charset").map(|v| v.as_str()));
    assert_eq!(Some("alot"), m.get_param("random").map(|v| v.as_str()));

    // re-parsing the emitted text yields an equal media type
    let reparsed: mime::Mime = m.to_string().parse().unwrap();
    assert_eq!(m, reparsed);
}

#[test]
fn media_type_invalid_tokens() {
    let params = pairs(&[]);
    match create_mime("te xt", "plain", &params, MailType::Ascii) {
        Err(CreateMimeError::InvalidToken(t)) => assert_eq!("te xt", t.as_str()),
        _ => panic!("expected an invalid-token error"),
    }
    match create_mime("text", "pl/ain", &params, MailType::Ascii) {
        Err(CreateMimeError::InvalidToken(t)) => assert_eq!("pl/ain", t.as_str()),
        _ => panic!("expected an invalid-token error"),
    }
}
