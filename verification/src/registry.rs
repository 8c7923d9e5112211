//! Header-kind declaration and registry: turns a declaration group into
//! validated kind descriptors, and self-checks the group (recognized
//! multiplicity tags, legal canonical names, pairwise distinct names)
//! before any of it is trusted.

use vstd::prelude::*;

verus! {

/// How many times a header of a kind may appear in one message.
#[derive(Clone, Copy, Debug, PartialEq, Eq, Structural)]
pub enum Multiplicity {
    ExactlyOne,
    Many,
}

/// The value-component type a header kind stores. Every tag listed here
/// is encodable as a header value, so the capability demanded of declared
/// component types holds by construction.
#[derive(Clone, Copy, Debug, PartialEq, Eq, Structural)]
pub enum ComponentTag {
    DateTime,
    Mailbox,
    MailboxList,
    Unstructured,
}

/// A contextual rule a header kind may declare; the rule is evaluated
/// against the complete header map, not a single field.
#[derive(Clone, Copy, Debug, PartialEq, Eq, Structural)]
pub enum ValidatorTag {
    /// A multi-mailbox `From` list requires an explicit `Sender` field.
    MultiMailboxNeedsSender,
    /// Each block of `Resent-*` headers must start over with a
    /// `Resent-Date`, and a multi-mailbox `Resent-From` in a block
    /// requires a `Resent-Sender` in the same block.
    ResentBlocks,
}

/// One record of a declaration group, as written by the library's user:
/// the multiplicity tag (`'1'` for single occurrence, `'+'` for multiple
/// occurrences), the kind identifier, the canonical name literal, the
/// component type and the optional contextual validator.
#[derive(Debug)]
pub struct HeaderDecl {
    pub multiplicity_tag: char,
    pub kind: String,
    pub name: String,
    pub component: ComponentTag,
    pub validator: Option<ValidatorTag>,
}

/// A validated header-kind descriptor: produced only by
/// [`register_headers`], so its canonical name is a legal header field
/// name and unique within its declaration group.
#[derive(Debug)]
pub struct HeaderKindDescriptor {
    pub name: String,
    pub multiplicity: Multiplicity,
    pub component: ComponentTag,
    pub validator: Option<ValidatorTag>,
}

impl Clone for HeaderKindDescriptor {
    fn clone(&self) -> (r: Self)
        ensures
            r == *self,
    {
        HeaderKindDescriptor {
            name: self.name.clone(),
            multiplicity: self.multiplicity,
            component: self.component,
            validator: self.validator,
        }
    }
}

/// A declaration-time failure of the registry self-check. These report
/// programming defects in static configuration, found before the library
/// is used, never conditions a runtime caller can provoke.
#[derive(Debug)]
pub enum DeclarationError {
    /// The multiplicity tag is neither `'1'` nor `'+'`; carries the kind
    /// identifier of the offending record.
    UnrecognizedMultiplicity(String),
    /// The canonical name breaks the header-field-name grammar; carries
    /// the offending name.
    InvalidHeaderName(String),
    /// The canonical name already appears earlier in the group; carries
    /// the kind identifier of the offending record.
    DuplicateHeaderName(String),
}

pub open spec fn is_upper_char(c: char) -> bool {
    65 <= c as u32 && c as u32 <= 90
}

pub open spec fn is_lower_char(c: char) -> bool {
    97 <= c as u32 && c as u32 <= 122
}

pub open spec fn is_digit_char(c: char) -> bool {
    48 <= c as u32 && c as u32 <= 57
}

/// A legal canonical header name: non-empty, hyphen-separated words, each
/// word an upper-case letter followed by lower-case letters or digits.
/// `Message-Id` is legal; `Message-ID`, `message-id`, `-Id` and `Id-`
/// are not.
pub open spec fn is_valid_header_name(s: Seq<char>) -> bool {
    &&& s.len() > 0
    &&& s[s.len() - 1] != '-'
    &&& forall|i: int|
        0 <= i < s.len() ==> (is_upper_char(#[trigger] s[i]) || is_lower_char(s[i])
            || is_digit_char(s[i]) || s[i] == '-')
    &&& forall|i: int|
        0 <= i < s.len() ==> (is_upper_char(#[trigger] s[i]) <==> (i == 0 || s[i - 1] == '-'))
}

/// Executable check of `is_valid_header_name`.
#[verifier::rlimit(50)]
pub fn validate_header_name(s: &str) -> (r: bool)
    ensures
        r == is_valid_header_name(s@),
{
    let len = s.unicode_len();
    if len == 0 {
        return false;
    }
    if s.get_char(len - 1) == '-' {
        return false;
    }
    let mut i: usize = 0;
    while i < len
        invariant
            0 <= i <= len,
            len == s@.len(),
            forall|j: int|
                0 <= j < i ==> (is_upper_char(#[trigger] s@[j]) || is_lower_char(s@[j])
                    || is_digit_char(s@[j]) || s@[j] == '-'),
            forall|j: int|
                0 <= j < i ==> (is_upper_char(#[trigger] s@[j]) <==> (j == 0 || s@[j - 1] == '-')),
        decreases len - i,
    {
        let c = s.get_char(i);
        let n = c as u32;
        let upper = 65 <= n && n <= 90;
        let lower = 97 <= n && n <= 122;
        let digit = 48 <= n && n <= 57;
        if !(upper || lower || digit || c == '-') {
            return false;
        }
        let at_word_start = if i == 0 {
            true
        } else {
            s.get_char(i - 1) == '-'
        };
        if upper != at_word_start {
            return false;
        }
        i = i + 1;
    }
    true
}

/// The two recognized multiplicity tags: `'1'` (single occurrence) and
/// `'+'` (multiple occurrences).
pub open spec fn tag_recognized(c: char) -> bool {
    c == '1' || c == '+'
}

/// The multiplicity a recognized tag declares.
pub open spec fn multiplicity_of_tag(c: char) -> Multiplicity {
    if c == '1' {
        Multiplicity::ExactlyOne
    } else {
        Multiplicity::Many
    }
}

/// The name of record `i` differs from every earlier name in the group.
pub open spec fn name_fresh_at(ds: Seq<HeaderDecl>, i: int) -> bool {
    forall|j: int| 0 <= j < i ==> (#[trigger] ds[j].name@) != ds[i].name@
}

/// Record `i` of the group passes the self-check: recognized tag, legal
/// canonical name, and a name not already declared earlier in the group.
pub open spec fn decl_ok(ds: Seq<HeaderDecl>, i: int) -> bool {
    &&& tag_recognized(ds[i].multiplicity_tag)
    &&& is_valid_header_name(ds[i].name@)
    &&& name_fresh_at(ds, i)
}

/// The whole declaration group passes the self-check.
pub open spec fn group_ok(ds: Seq<HeaderDecl>) -> bool {
    forall|i: int| 0 <= i < ds.len() ==> #[trigger] decl_ok(ds, i)
}

/// The descriptor produced for record `i` of a group that passed the
/// self-check.
pub open spec fn descriptor_matches(d: HeaderKindDescriptor, decl: HeaderDecl) -> bool {
    &&& d.name@ == decl.name@
    &&& d.multiplicity == multiplicity_of_tag(decl.multiplicity_tag)
    &&& d.component == decl.component
    &&& d.validator == decl.validator
}

/// Registers one declaration group: runs the self-check over every
/// record, in order, and produces one descriptor per record.
///
/// The self-check fails on the first offending record, before any
/// encoding can rely on the group: an unrecognized multiplicity tag, an
/// illegal canonical name, or a canonical name already declared earlier
/// in the same group. The error names the offending identifier or name.
pub fn register_headers(decls: &Vec<HeaderDecl>) -> (r: Result<
    Vec<HeaderKindDescriptor>,
    DeclarationError,
>)
    ensures
        r is Ok <==> group_ok(decls@),
        r matches Ok(ds) ==> {
            &&& ds@.len() == decls@.len()
            &&& forall|i: int|
                0 <= i < decls@.len() ==> descriptor_matches(#[trigger] ds@[i], decls@[i])
        },
        r matches Err(e) ==> exists|i: int|
            #![auto]
            {
                &&& 0 <= i < decls@.len()
                &&& forall|j: int| 0 <= j < i ==> #[trigger] decl_ok(decls@, j)
                &&& !decl_ok(decls@, i)
                &&& (!tag_recognized(decls@[i].multiplicity_tag) ==> (e
                    matches DeclarationError::UnrecognizedMultiplicity(k) && k@ == decls@[i].kind@))
                &&& (tag_recognized(decls@[i].multiplicity_tag) && !is_valid_header_name(
                    decls@[i].name@,
                ) ==> (e matches DeclarationError::InvalidHeaderName(n) && n@ == decls@[i].name@))
                &&& (tag_recognized(decls@[i].multiplicity_tag) && is_valid_header_name(
                    decls@[i].name@,
                ) && !name_fresh_at(decls@, i) ==> (e
                    matches DeclarationError::DuplicateHeaderName(k) && k@ == decls@[i].kind@))
            },
{
    let len = decls.len();
    let mut out: Vec<HeaderKindDescriptor> = Vec::new();
    let mut i: usize = 0;
    while i < len
        invariant
            0 <= i <= len,
            len == decls@.len(),
            out@.len() == i,
            forall|j: int| 0 <= j < i ==> #[trigger] decl_ok(decls@, j),
            forall|j: int| 0 <= j < i ==> descriptor_matches(#[trigger] out@[j], decls@[j]),
        decreases len - i,
    {
        let d = &decls[i];
        let tag = d.multiplicity_tag;
        if !(tag == '1' || tag == '+') {
            proof {
                assert(!decl_ok(decls@, i as int));
                assert(!group_ok(decls@));
            }
            return Err(DeclarationError::UnrecognizedMultiplicity(d.kind.clone()));
        }
        if !validate_header_name(d.name.as_str()) {
            proof {
                assert(!decl_ok(decls@, i as int));
                assert(!group_ok(decls@));
            }
            return Err(DeclarationError::InvalidHeaderName(d.name.clone()));
        }
        let mut j: usize = 0;
        while j < i
            invariant
                0 <= j <= i < len,
                len == decls@.len(),
                *d == decls@[i as int],
                tag_recognized(decls@[i as int].multiplicity_tag),
                is_valid_header_name(decls@[i as int].name@),
                forall|k: int| 0 <= k < i ==> #[trigger] decl_ok(decls@, k),
                forall|k: int| 0 <= k < j ==> (#[trigger] decls@[k].name@) != decls@[i as int].name@,
            decreases i - j,
        {
            let other = &decls[j];
            let same = other.name.eq(&d.name);
            if same {
                proof {
                    assert(decls@[j as int].name@ == decls@[i as int].name@);
                    assert(!name_fresh_at(decls@, i as int));
                    assert(!decl_ok(decls@, i as int));
                    assert(!group_ok(decls@));
                }
                return Err(DeclarationError::DuplicateHeaderName(d.kind.clone()));
            }
            proof {
                assert(decls@[j as int].name@ != decls@[i as int].name@);
            }
            j = j + 1;
        }
        let mult = if tag == '1' {
            Multiplicity::ExactlyOne
        } else {
            Multiplicity::Many
        };
        out.push(
            HeaderKindDescriptor {
                name: d.name.clone(),
                multiplicity: mult,
                component: d.component,
                validator: d.validator,
            },
        );
        i = i + 1;
    }
    Ok(out)
}

} // verus!
