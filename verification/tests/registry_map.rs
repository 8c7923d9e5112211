use mail_codec::registry::{
    ComponentTag, DeclarationError, HeaderDecl, HeaderKindDescriptor, Multiplicity,
    ValidatorTag, register_headers, validate_header_name,
};
use mail_codec::header_map::{HeaderMap, HeaderMapError, HeaderValue};

fn decl(tag: char, kind: &str, name: &str, validator: Option<ValidatorTag>) -> HeaderDecl {
    HeaderDecl {
        multiplicity_tag: tag,
        kind: kind.to_string(),
        name: name.to_string(),
        component: ComponentTag::Unstructured,
        validator,
    }
}

fn mailbox_list(addrs: &[&str]) -> HeaderValue {
    HeaderValue::MailboxList(addrs.iter().map(|a| a.to_string()).collect())
}

fn standard_kinds() -> Vec<HeaderKindDescriptor> {
    let decls = vec![
        HeaderDecl {
            multiplicity_tag: '1',
            kind: "From".to_string(),
            name: "From".to_string(),
            component: ComponentTag::MailboxList,
            validator: Some(ValidatorTag::MultiMailboxNeedsSender),
        },
        HeaderDecl {
            multiplicity_tag: '1',
            kind: "Sender".to_string(),
            name: "Sender".to_string(),
            component: ComponentTag::Mailbox,
            validator: None,
        },
        HeaderDecl {
            multiplicity_tag: '1',
            kind: "Subject".to_string(),
            name: "Subject".to_string(),
            component: ComponentTag::Unstructured,
            validator: None,
        },
        HeaderDecl {
            multiplicity_tag: '+',
            kind: "Comments".to_string(),
            name: "Comments".to_string(),
            component: ComponentTag::Unstructured,
            validator: None,
        },
        HeaderDecl {
            multiplicity_tag: '+',
            kind: "ResentDate".to_string(),
            name: "Resent-Date".to_string(),
            component: ComponentTag::DateTime,
            validator: Some(ValidatorTag::ResentBlocks),
        },
        HeaderDecl {
            multiplicity_tag: '+',
            kind: "ResentFrom".to_string(),
            name: "Resent-From".to_string(),
            component: ComponentTag::MailboxList,
            validator: Some(ValidatorTag::ResentBlocks),
        },
        HeaderDecl {
            multiplicity_tag: '+',
            kind: "ResentTo".to_string(),
            name: "Resent-To".to_string(),
            component: ComponentTag::MailboxList,
            validator: Some(ValidatorTag::ResentBlocks),
        },
        HeaderDecl {
            multiplicity_tag: '+',
            kind: "ResentSender".to_string(),
            name: "Resent-Sender".to_string(),
            component: ComponentTag::Mailbox,
            validator: Some(ValidatorTag::ResentBlocks),
        },
    ];
    register_headers(&decls).unwrap()
}

fn kind<'a>(ks: &'a [HeaderKindDescriptor], name: &str) -> &'a HeaderKindDescriptor {
    ks.iter().find(|k| k.name == name).unwrap()
}

#[test]
fn header_name_grammar() {
    assert!(validate_header_name("Message-Id"));
    assert!(validate_header_name("Date"));
    assert!(validate_header_name("Cc"));
    assert!(!validate_header_name("Message-ID"));
    assert!(!validate_header_name("message-id"));
    assert!(!validate_header_name(""));
    assert!(!validate_header_name("-Id"));
    assert!(!validate_header_name("Id-"));
    assert!(!validate_header_name("Mes sage"));
}

#[test]
fn registry_accepts_valid_group() {
    let ks = standard_kinds();
    assert_eq!(8, ks.len());
    assert_eq!(Multiplicity::ExactlyOne, kind(&ks, "From").multiplicity);
    assert_eq!(Multiplicity::Many, kind(&ks, "Comments").multiplicity);
    assert_eq!(
        Some(ValidatorTag::MultiMailboxNeedsSender),
        kind(&ks, "From").validator
    );
    assert_eq!(ComponentTag::Mailbox, kind(&ks, "Sender").component);
}

#[test]
fn registry_rejects_duplicate_name() {
    let decls = vec![
        decl('1', "Date", "Date", None),
        decl('1', "DateAgain", "Date", None),
    ];
    match register_headers(&decls) {
        Err(DeclarationError::DuplicateHeaderName(k)) => assert_eq!("DateAgain", k.as_str()),
        _ => panic!("expected a duplicate-name failure"),
    }
}

#[test]
fn registry_rejects_invalid_name() {
    let decls = vec![decl('1', "Subject", "SUBJECT", None)];
    match register_headers(&decls) {
        Err(DeclarationError::InvalidHeaderName(n)) => assert_eq!("SUBJECT", n.as_str()),
        _ => panic!("expected an invalid-name failure"),
    }
}

#[test]
fn registry_rejects_unknown_multiplicity_tag() {
    let decls = vec![decl('*', "Subject", "Subject", None)];
    match register_headers(&decls) {
        Err(DeclarationError::UnrecognizedMultiplicity(k)) => assert_eq!("Subject", k.as_str()),
        _ => panic!("expected an unrecognized-tag failure"),
    }
}

#[test]
fn single_occurrence_kind_rejects_second_insert() {
    let ks = standard_kinds();
    let mut map = HeaderMap::new();
    let subject = kind(&ks, "Subject");
    assert!(map.insert(subject.clone(), HeaderValue::Unstructured("One".to_string())).is_ok());
    match map.insert(subject.clone(), HeaderValue::Unstructured("Two".to_string())) {
        Err(HeaderMapError::MultiplicityViolation(n)) => assert_eq!("Subject", n.as_str()),
        _ => panic!("expected a multiplicity violation"),
    }
    // the map is left unchanged: still exactly one Subject value
    assert_eq!(1, map.get(subject).len());
}

#[test]
fn many_kind_keeps_every_value_in_order() {
    let ks = standard_kinds();
    let mut map = HeaderMap::new();
    let comments = kind(&ks, "Comments");
    for text in ["first", "second", "third"] {
        assert!(map.insert(comments.clone(), HeaderValue::Unstructured(text.to_string())).is_ok());
    }
    let got = map.get(comments);
    assert_eq!(3, got.len());
    for (v, expect) in got.iter().zip(["first", "second", "third"]) {
        match v {
            HeaderValue::Unstructured(s) => assert_eq!(expect, s.as_str()),
            _ => panic!("unexpected value variant"),
        }
    }
    assert!(map.contains(comments));
    assert!(!map.contains(kind(&ks, "Subject")));
}

#[test]
fn from_validation_normal() {
    let ks = standard_kinds();
    let mut map = HeaderMap::new();
    map.insert(kind(&ks, "From").clone(), mailbox_list(&["pete@nixmail.nixdomain"])).unwrap();
    map.insert(
        kind(&ks, "Subject").clone(),
        HeaderValue::Unstructured("Ok".to_string()),
    ).unwrap();
    assert!(map.run_contextual_validators().is_ok());
}

#[test]
fn from_validation_multi_err() {
    let ks = standard_kinds();
    let mut map = HeaderMap::new();
    map.insert(
        kind(&ks, "From").clone(),
        mailbox_list(&["nixperson@nixmail.nixdomain", "a@b.c"]),
    ).unwrap();
    let err = map.run_contextual_validators().unwrap_err();
    assert_eq!(1, err.faults.len());
    assert_eq!("From", err.faults[0].kind.as_str());
    assert_eq!(ValidatorTag::MultiMailboxNeedsSender, err.faults[0].validator);
}

#[test]
fn from_validation_multi_ok() {
    let ks = standard_kinds();
    let mut map = HeaderMap::new();
    map.insert(
        kind(&ks, "From").clone(),
        mailbox_list(&["nixperson@nixmail.nixdomain", "a@b.c"]),
    ).unwrap();
    map.insert(kind(&ks, "Sender").clone(), HeaderValue::Mailbox("abx@d.e".to_string())).unwrap();
    assert!(map.run_contextual_validators().is_ok());
}

#[test]
fn resent_no_date_err() {
    let ks = standard_kinds();
    let mut map = HeaderMap::new();
    map.insert(kind(&ks, "Resent-From").clone(), mailbox_list(&["a@b.c"])).unwrap();
    assert!(map.run_contextual_validators().is_err());
}

#[test]
fn resent_with_date() {
    let ks = standard_kinds();
    let mut map = HeaderMap::new();
    map.insert(kind(&ks, "Resent-From").clone(), mailbox_list(&["a@b.c"])).unwrap();
    map.insert(kind(&ks, "Resent-Date").clone(), HeaderValue::DateTime(1_600_000_000)).unwrap();
    assert!(map.run_contextual_validators().is_ok());
}

#[test]
fn resent_no_date_err_second_block() {
    let ks = standard_kinds();
    let mut map = HeaderMap::new();
    map.insert(kind(&ks, "Resent-Date").clone(), HeaderValue::DateTime(1)).unwrap();
    map.insert(kind(&ks, "Resent-From").clone(), mailbox_list(&["a@b.c"])).unwrap();
    map.insert(kind(&ks, "Resent-To").clone(), mailbox_list(&["e@f.d"])).unwrap();
    map.insert(kind(&ks, "Resent-From").clone(), mailbox_list(&["ee@ee.e"])).unwrap();
    assert!(map.run_contextual_validators().is_err());
}

#[test]
fn resent_with_date_second_block() {
    let ks = standard_kinds();
    let mut map = HeaderMap::new();
    map.insert(kind(&ks, "Resent-Date").clone(), HeaderValue::DateTime(1)).unwrap();
    map.insert(kind(&ks, "Resent-From").clone(), mailbox_list(&["a@b.c"])).unwrap();
    map.insert(kind(&ks, "Resent-To").clone(), mailbox_list(&["e@f.d"])).unwrap();
    map.insert(kind(&ks, "Resent-From").clone(), mailbox_list(&["ee@ee.e"])).unwrap();
    map.insert(kind(&ks, "Resent-Date").clone(), HeaderValue::DateTime(2)).unwrap();
    assert!(map.run_contextual_validators().is_ok());
}

#[test]
fn resent_multi_mailbox_from_needs_sender() {
    let ks = standard_kinds();
    let mut map = HeaderMap::new();
    map.insert(kind(&ks, "Resent-Date").clone(), HeaderValue::DateTime(1)).unwrap();
    map.insert(kind(&ks, "Resent-From").clone(), mailbox_list(&["a@b.c", "e@c.d"])).unwrap();
    assert!(map.run_contextual_validators().is_err());

    map.insert(
        kind(&ks, "Resent-Sender").clone(),
        HeaderValue::Mailbox("a@b.c".to_string()),
    ).unwrap();
    assert!(map.run_contextual_validators().is_ok());
}
