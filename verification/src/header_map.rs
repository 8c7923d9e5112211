//! Ordered, multi-valued header map keyed by header kind: insertion
//! preserves order, the declared multiplicity is enforced on insertion,
//! and contextual validators run across the full set of inserted headers.

use vstd::prelude::*;
use crate::registry::{HeaderKindDescriptor, Multiplicity, ValidatorTag};

verus! {

/// A value stored under a header kind, one variant per component type.
#[derive(Debug)]
pub enum HeaderValue {
    Unstructured(String),
    Mailbox(String),
    MailboxList(Vec<String>),
    DateTime(i64),
}

/// One entry of the map: the kind it was inserted under and its value.
#[derive(Debug)]
pub struct HeaderEntry {
    pub kind: HeaderKindDescriptor,
    pub value: HeaderValue,
}

/// Insertion failed: the kind is declared single-occurrence and the map
/// already holds an entry for it; carries the kind's canonical name.
#[derive(Debug)]
pub enum HeaderMapError {
    MultiplicityViolation(String),
}

/// Some entry carries a kind of the given canonical name.
pub open spec fn has_kind(s: Seq<HeaderEntry>, name: Seq<char>) -> bool {
    exists|i: int| 0 <= i < s.len() && (#[trigger] s[i]).kind.name@ == name
}

/// The ordered values stored under the given canonical name.
pub open spec fn values_of(s: Seq<HeaderEntry>, name: Seq<char>) -> Seq<HeaderValue>
    decreases s.len(),
{
    if s.len() == 0 {
        seq![]
    } else {
        (if s[0].kind.name@ == name {
            seq![s[0].value]
        } else {
            seq![]
        }) + values_of(s.drop_first(), name)
    }
}

pub proof fn lemma_values_of_append(s: Seq<HeaderEntry>, e: HeaderEntry, name: Seq<char>)
    ensures
        values_of(s.push(e), name) == values_of(s, name) + (if e.kind.name@ == name {
            seq![e.value]
        } else {
            Seq::<HeaderValue>::empty()
        }),
    decreases s.len(),
{
    let tail: Seq<HeaderValue> = if e.kind.name@ == name {
        seq![e.value]
    } else {
        Seq::<HeaderValue>::empty()
    };
    if s.len() == 0 {
        let emp = Seq::<HeaderEntry>::empty();
        assert(s.push(e) =~= seq![e]);
        assert(seq![e].drop_first() =~= emp);
        assert(values_of(emp, name) == Seq::<HeaderValue>::empty());
        assert(values_of(s.push(e), name) =~= values_of(s, name) + tail);
    } else {
        assert(s.push(e)[0] == s[0]);
        assert(s.push(e).drop_first() =~= s.drop_first().push(e));
        lemma_values_of_append(s.drop_first(), e, name);
        assert(values_of(s.push(e), name) =~= values_of(s, name) + tail);
    }
}

/// Some entry under the name `From` holds a mailbox list with more than
/// one mailbox.
pub open spec fn multi_from_present(s: Seq<HeaderEntry>) -> bool {
    exists|i: int|
        0 <= i < s.len() && (#[trigger] s[i]).kind.name@ == "From"@ && (s[i].value matches
        HeaderValue::MailboxList(l) && l@.len() > 1)
}

/// The rule of [`ValidatorTag::MultiMailboxNeedsSender`]: a multi-mailbox
/// `From` list requires an explicit `Sender` field.
#[verifier::opaque]
pub open spec fn from_rule_holds(s: Seq<HeaderEntry>) -> bool {
    multi_from_present(s) ==> has_kind(s, "Sender"@)
}

/// The canonical name starts with `Resent-`.
pub open spec fn starts_resent(name: Seq<char>) -> bool {
    name.len() >= 7 && name.subrange(0, 7) == "Resent-"@
}

/// The block holds a `Resent-From` mailbox list with more than one
/// mailbox.
pub open spec fn block_multi_resent_from(block: Seq<HeaderEntry>) -> bool {
    exists|i: int|
        0 <= i < block.len() && (#[trigger] block[i]).kind.name@ == "Resent-From"@ && (
        block[i].value matches HeaderValue::MailboxList(l) && l@.len() > 1)
}

/// One resent block is complete: it holds a `Resent-Date`, and a
/// multi-mailbox `Resent-From` in it requires a `Resent-Sender`.
pub open spec fn resent_block_ok(block: Seq<HeaderEntry>) -> bool {
    &&& has_kind(block, "Resent-Date"@)
    &&& (block_multi_resent_from(block) ==> has_kind(block, "Resent-Sender"@))
}

/// The block scan of [`ValidatorTag::ResentBlocks`] over the remaining
/// entries, with the block gathered so far: entries are read in insertion
/// order; a repeated occurrence of a kind already in the current block
/// closes that block (which must then be complete) and opens a new one;
/// the last block is validated even if no later block-starter appears.
pub open spec fn resent_scan_ok(s: Seq<HeaderEntry>, block: Seq<HeaderEntry>) -> bool
    decreases s.len(),
{
    if s.len() == 0 {
        resent_block_ok(block)
    } else if !starts_resent(s[0].kind.name@) {
        resent_scan_ok(s.drop_first(), block)
    } else if has_kind(block, s[0].kind.name@) {
        resent_block_ok(block) && resent_scan_ok(s.drop_first(), seq![s[0]])
    } else {
        resent_scan_ok(s.drop_first(), block.push(s[0]))
    }
}

/// The rule of [`ValidatorTag::ResentBlocks`] over a whole entry list.
#[verifier::opaque]
pub open spec fn resent_rule_holds(s: Seq<HeaderEntry>) -> bool {
    resent_scan_ok(s, Seq::<HeaderEntry>::empty())
}

/// What each declared validator demands of the complete entry list.
pub open spec fn validator_holds(v: ValidatorTag, s: Seq<HeaderEntry>) -> bool {
    match v {
        ValidatorTag::MultiMailboxNeedsSender => from_rule_holds(s),
        ValidatorTag::ResentBlocks => resent_rule_holds(s),
    }
}

/// Every validator declared by the kind of some entry holds of the
/// complete entry list.
pub open spec fn all_validators_hold(s: Seq<HeaderEntry>) -> bool {
    forall|i: int|
        0 <= i < s.len() ==> ((#[trigger] s[i]).kind.validator matches Some(v) ==> validator_holds(
            v,
            s,
        ))
}

/// Executable check of [`from_rule_holds`].
fn check_from_rule(entries: &Vec<HeaderEntry>) -> (r: bool)
    ensures
        r == from_rule_holds(entries@),
{
    let len = entries.len();
    let mut multi = false;
    let mut snd = false;
    let mut i: usize = 0;
    while i < len
        invariant
            0 <= i <= len,
            len == entries@.len(),
            multi <==> exists|j: int|
                0 <= j < i && (#[trigger] entries@[j]).kind.name@ == "From"@ && (entries@[j].value
                    matches HeaderValue::MailboxList(l) && l@.len() > 1),
            snd <==> exists|j: int| 0 <= j < i && (#[trigger] entries@[j]).kind.name@ == "Sender"@,
        decreases len - i,
    {
        let e = &entries[i];
        if crate::grammar::str_eq(e.kind.name.as_str(), "From") {
            let big = match &e.value {
                HeaderValue::MailboxList(l) => l.len() > 1,
                _ => false,
            };
            if big {
                multi = true;
            }
        }
        if crate::grammar::str_eq(e.kind.name.as_str(), "Sender") {
            snd = true;
        }
        i = i + 1;
    }
    proof {
        reveal(from_rule_holds);
    }
    !multi || snd
}

/// The indices in `idx` point into `es`, and `sblock` is the entries they
/// point at, in order.
pub open spec fn block_corr(es: Seq<HeaderEntry>, idx: Seq<usize>, sblock: Seq<HeaderEntry>) -> bool {
    &&& sblock.len() == idx.len()
    &&& forall|m: int|
        0 <= m < idx.len() ==> 0 <= #[trigger] idx[m] < es.len() && sblock[m] == es[idx[m] as int]
}

/// Whether the gathered block already holds a kind of the given name.
fn block_contains(
    entries: &Vec<HeaderEntry>,
    block: &Vec<usize>,
    name: &str,
    Ghost(sblock): Ghost<Seq<HeaderEntry>>,
) -> (r: bool)
    requires
        block_corr(entries@, block@, sblock),
    ensures
        r == has_kind(sblock, name@),
{
    let len = block.len();
    let mut m: usize = 0;
    while m < len
        invariant
            0 <= m <= len,
            len == block@.len(),
            block_corr(entries@, block@, sblock),
            forall|k: int| 0 <= k < m ==> (#[trigger] sblock[k]).kind.name@ != name@,
        decreases len - m,
    {
        let idx = block[m];
        let e = &entries[idx];
        if crate::grammar::str_eq(e.kind.name.as_str(), name) {
            return true;
        }
        m = m + 1;
    }
    false
}

/// Executable check of [`resent_block_ok`] on the gathered block.
fn check_block_ok(
    entries: &Vec<HeaderEntry>,
    block: &Vec<usize>,
    Ghost(sblock): Ghost<Seq<HeaderEntry>>,
) -> (r: bool)
    requires
        block_corr(entries@, block@, sblock),
    ensures
        r == resent_block_ok(sblock),
{
    let len = block.len();
    let mut date = false;
    let mut multi = false;
    let mut snd = false;
    let mut m: usize = 0;
    while m < len
        invariant
            0 <= m <= len,
            len == block@.len(),
            block_corr(entries@, block@, sblock),
            date <==> exists|k: int|
                0 <= k < m && (#[trigger] sblock[k]).kind.name@ == "Resent-Date"@,
            multi <==> exists|k: int|
                0 <= k < m && (#[trigger] sblock[k]).kind.name@ == "Resent-From"@ && (
                sblock[k].value matches HeaderValue::MailboxList(l) && l@.len() > 1),
            snd <==> exists|k: int|
                0 <= k < m && (#[trigger] sblock[k]).kind.name@ == "Resent-Sender"@,
        decreases len - m,
    {
        let idx = block[m];
        let e = &entries[idx];
        if crate::grammar::str_eq(e.kind.name.as_str(), "Resent-Date") {
            date = true;
        }
        if crate::grammar::str_eq(e.kind.name.as_str(), "Resent-From") {
            let big = match &e.value {
                HeaderValue::MailboxList(l) => l.len() > 1,
                _ => false,
            };
            if big {
                multi = true;
            }
        }
        if crate::grammar::str_eq(e.kind.name.as_str(), "Resent-Sender") {
            snd = true;
        }
        m = m + 1;
    }
    date && (!multi || snd)
}

/// Executable check of [`resent_rule_holds`]: scans the entries in
/// insertion order, gathering `Resent-*` entries into blocks.
fn check_resent_rule(entries: &Vec<HeaderEntry>) -> (r: bool)
    ensures
        r == resent_rule_holds(entries@),
{
    let len = entries.len();
    let mut block: Vec<usize> = Vec::new();
    let ghost mut sblock: Seq<HeaderEntry> = Seq::<HeaderEntry>::empty();
    let mut i: usize = 0;
    proof {
        reveal(resent_rule_holds);
        assert(entries@.skip(0) =~= entries@);
    }
    while i < len
        invariant
            0 <= i <= len,
            len == entries@.len(),
            block_corr(entries@, block@, sblock),
            resent_scan_ok(entries@, Seq::<HeaderEntry>::empty()) == resent_scan_ok(
                entries@.skip(i as int),
                sblock,
            ),
        decreases len - i,
    {
        let e = &entries[i];
        proof {
            assert(entries@.skip(i as int)[0] == entries@[i as int]);
            assert(entries@.skip(i as int).drop_first() =~= entries@.skip(i + 1));
        }
        let nm = e.kind.name.as_str();
        let is_resent = if nm.unicode_len() >= 7 {
            crate::grammar::str_eq(nm.substring_char(0, 7), "Resent-")
        } else {
            false
        };
        if is_resent {
            if block_contains(entries, &block, nm, Ghost(sblock)) {
                let ok = check_block_ok(entries, &block, Ghost(sblock));
                if !ok {
                    proof {
                        reveal(resent_rule_holds);
                    }
                    return false;
                }
                let mut fresh: Vec<usize> = Vec::new();
                fresh.push(i);
                block = fresh;
                proof {
                    sblock = seq![entries@[i as int]];
                }
            } else {
                block.push(i);
                proof {
                    sblock = sblock.push(entries@[i as int]);
                }
            }
        }
        i = i + 1;
    }
    proof {
        reveal(resent_rule_holds);
        assert(entries@.skip(len as int) =~= Seq::<HeaderEntry>::empty());
    }
    check_block_ok(entries, &block, Ghost(sblock))
}

/// One reason of an aggregated validation failure: the kind whose
/// declaration carries the validator, and the validator that did not
/// hold.
#[derive(Debug)]
pub struct ValidationFault {
    pub kind: String,
    pub validator: ValidatorTag,
}

/// The aggregated result of running every declared contextual validator:
/// all violated rules, not only the first.
#[derive(Debug)]
pub struct ContextualValidationFailure {
    pub faults: Vec<ValidationFault>,
}

/// Whether an equal fault (same kind name and validator) is already
/// recorded.
fn fault_recorded(faults: &Vec<ValidationFault>, name: &str, v: ValidatorTag) -> (r: bool)
    ensures
        r <==> exists|k: int|
            0 <= k < faults@.len() && (#[trigger] faults@[k]).kind@ == name@ && faults@[k].validator
                == v,
{
    let len = faults.len();
    let mut k: usize = 0;
    while k < len
        invariant
            0 <= k <= len,
            len == faults@.len(),
            forall|m: int|
                0 <= m < k ==> !((#[trigger] faults@[m]).kind@ == name@ && faults@[m].validator
                    == v),
        decreases len - k,
    {
        let f = &faults[k];
        if f.validator == v && crate::grammar::str_eq(f.kind.as_str(), name) {
            return true;
        }
        k = k + 1;
    }
    false
}

/// The ordered, multi-valued header map. Entries keep insertion order;
/// a kind declared single-occurrence never has two entries.
pub struct HeaderMap {
    entries: Vec<HeaderEntry>,
}

impl HeaderMap {
    /// The entries in insertion order.
    pub closed spec fn entries_seq(&self) -> Seq<HeaderEntry> {
        self.entries@
    }

    /// The map's invariant: two entries of the same kind exist only for
    /// kinds of multiplicity `Many`.
    pub open spec fn wf(&self) -> bool {
        forall|i: int, j: int|
            0 <= i < j < self.entries_seq().len() && (#[trigger] self.entries_seq()[i]).kind.name@
                == (#[trigger] self.entries_seq()[j]).kind.name@ ==> self.entries_seq()[
                i
            ].kind.multiplicity is Many && self.entries_seq()[j].kind.multiplicity is Many
    }

    /// All entries carrying this kind's name agree with it on
    /// multiplicity. Descriptors come out of one registry group, where a
    /// canonical name is unique, so the name determines the descriptor.
    pub open spec fn coherent_with(&self, kind: HeaderKindDescriptor) -> bool {
        forall|i: int|
            0 <= i < self.entries_seq().len() && (#[trigger] self.entries_seq()[i]).kind.name@
                == kind.name@ ==> self.entries_seq()[i].kind.multiplicity == kind.multiplicity
    }

    /// An empty map.
    pub fn new() -> (r: HeaderMap)
        ensures
            r.entries_seq() == Seq::<HeaderEntry>::empty(),
            r.wf(),
    {
        HeaderMap { entries: Vec::new() }
    }

    /// Whether the map holds an entry of the given kind.
    pub fn contains(&self, kind: &HeaderKindDescriptor) -> (r: bool)
        ensures
            r == has_kind(self.entries_seq(), kind.name@),
    {
        let len = self.entries.len();
        let mut i: usize = 0;
        while i < len
            invariant
                0 <= i <= len,
                len == self.entries@.len(),
                forall|j: int| 0 <= j < i ==> (#[trigger] self.entries@[j]).kind.name@ != kind.name@,
            decreases len - i,
        {
            let e = &self.entries[i];
            if e.kind.name.eq(&kind.name) {
                return true;
            }
            i = i + 1;
        }
        false
    }

    /// Appends `(kind, value)` preserving order. If the kind is declared
    /// `ExactlyOne` and an entry for it already exists, fails with
    /// `MultiplicityViolation` naming the kind, and the map is left
    /// unchanged.
    pub fn insert(&mut self, kind: HeaderKindDescriptor, value: HeaderValue) -> (r: Result<
        (),
        HeaderMapError,
    >)
        requires
            old(self).wf(),
            old(self).coherent_with(kind),
        ensures
            final(self).wf(),
            kind.multiplicity is ExactlyOne && has_kind(old(self).entries_seq(), kind.name@)
                ==> {
                &&& final(self).entries_seq() == old(self).entries_seq()
                &&& r matches Err(HeaderMapError::MultiplicityViolation(n)) && n@ == kind.name@
            },
            !(kind.multiplicity is ExactlyOne && has_kind(old(self).entries_seq(), kind.name@))
                ==> {
                &&& r is Ok
                &&& final(self).entries_seq() == old(self).entries_seq().push(
                    HeaderEntry { kind, value },
                )
            },
    {
        if matches!(kind.multiplicity, Multiplicity::ExactlyOne) && self.contains(&kind) {
            return Err(HeaderMapError::MultiplicityViolation(kind.name));
        }
        let ghost pre = self.entries@;
        self.entries.push(HeaderEntry { kind, value });
        proof {
            let post = self.entries@;
            assert forall|i: int, j: int|
                0 <= i < j < post.len() && (#[trigger] post[i]).kind.name@ == (
                #[trigger] post[j]).kind.name@ implies post[i].kind.multiplicity is Many
                && post[j].kind.multiplicity is Many by {
                if j < post.len() - 1 {
                    assert(post[i] == pre[i] && post[j] == pre[j]);
                } else {
                    assert(post[i] == pre[i]);
                    assert(has_kind(pre, post[j].kind.name@));
                }
            }
        }
        Ok(())
    }

    /// The ordered sequence of all values stored under the given kind: at
    /// most one for an `ExactlyOne` kind, any number for a `Many` kind.
    pub fn get(&self, kind: &HeaderKindDescriptor) -> (r: Vec<&HeaderValue>)
        ensures
            r@.len() == values_of(self.entries_seq(), kind.name@).len(),
            forall|k: int|
                0 <= k < r@.len() ==> *(#[trigger] r@[k]) == values_of(
                    self.entries_seq(),
                    kind.name@,
                )[k],
    {
        let len = self.entries.len();
        let mut out: Vec<&HeaderValue> = Vec::new();
        let mut i: usize = 0;
        proof {
            assert(self.entries@.take(0) =~= Seq::<HeaderEntry>::empty());
        }
        while i < len
            invariant
                0 <= i <= len,
                len == self.entries@.len(),
                out@.len() == values_of(self.entries@.take(i as int), kind.name@).len(),
                forall|k: int|
                    0 <= k < out@.len() ==> *(#[trigger] out@[k]) == values_of(
                        self.entries@.take(i as int),
                        kind.name@,
                    )[k],
            decreases len - i,
        {
            let e = &self.entries[i];
            proof {
                assert(self.entries@.take(i + 1) =~= self.entries@.take(i as int).push(
                    self.entries@[i as int],
                ));
                lemma_values_of_append(
                    self.entries@.take(i as int),
                    self.entries@[i as int],
                    kind.name@,
                );
            }
            if e.kind.name.eq(&kind.name) {
                out.push(&e.value);
            }
            i = i + 1;
        }
        proof {
            assert(self.entries@.take(len as int) =~= self.entries@);
        }
        out
    }

    /// Runs every contextual validator declared by a kind present in the
    /// map, invoked with the full entry list; collects all violated rules
    /// instead of stopping at the first, each reported once, and returns
    /// them as one aggregated failure.
    #[verifier::rlimit(80)]
    #[verifier::spinoff_prover]
    pub fn run_contextual_validators(&self) -> (r: Result<(), ContextualValidationFailure>)
        ensures
            r is Ok <==> all_validators_hold(self.entries_seq()),
            r matches Err(f) ==> {
                &&& f.faults@.len() > 0
                &&& forall|k: int|
                    0 <= k < f.faults@.len() ==> exists|w: int|
                        {
                            &&& 0 <= w < self.entries_seq().len()
                            &&& (#[trigger] self.entries_seq()[w]).kind.name@ == (
                            #[trigger] f.faults@[k]).kind@
                            &&& self.entries_seq()[w].kind.validator == Some(f.faults@[k].validator)
                            &&& !validator_holds(f.faults@[k].validator, self.entries_seq())
                        }
                &&& forall|i: int|
                    0 <= i < self.entries_seq().len() ==> ((#[trigger] self.entries_seq()[
                        i
                    ]).kind.validator matches Some(v) ==> (validator_holds(v, self.entries_seq())
                        || exists|k: int|
                        {
                            &&& 0 <= k < f.faults@.len()
                            &&& (#[trigger] f.faults@[k]).kind@ == self.entries_seq()[i].kind.name@
                            &&& f.faults@[k].validator == v
                        }))
                &&& forall|k1: int, k2: int|
                    0 <= k1 < k2 < f.faults@.len() ==> !((#[trigger] f.faults@[k1]).kind@ == (
                    #[trigger] f.faults@[k2]).kind@ && f.faults@[k1].validator
                        == f.faults@[k2].validator)
            },
    {
        let entries = &self.entries;
        let len = entries.len();
        let mut faults: Vec<ValidationFault> = Vec::new();
        let mut i: usize = 0;
        while i < len
            invariant
                0 <= i <= len,
                len == entries@.len(),
                entries@ == self.entries_seq(),
                forall|k: int|
                    0 <= k < faults@.len() ==> exists|w: int|
                        {
                            &&& 0 <= w < len
                            &&& (#[trigger] entries@[w]).kind.name@ == (#[trigger] faults@[k]).kind@
                            &&& entries@[w].kind.validator == Some(faults@[k].validator)
                            &&& !validator_holds(faults@[k].validator, entries@)
                        },
                forall|j: int|
                    0 <= j < i ==> ((#[trigger] entries@[j]).kind.validator matches Some(v) ==> (
                    validator_holds(v, entries@) || exists|k: int|
                        {
                            &&& 0 <= k < faults@.len()
                            &&& (#[trigger] faults@[k]).kind@ == entries@[j].kind.name@
                            &&& faults@[k].validator == v
                        })),
                forall|k1: int, k2: int|
                    0 <= k1 < k2 < faults@.len() ==> !((#[trigger] faults@[k1]).kind@ == (
                    #[trigger] faults@[k2]).kind@ && faults@[k1].validator
                        == faults@[k2].validator),
            decreases len - i,
        {
            let e = &entries[i];
            if let Some(v) = e.kind.validator {
                let holds = match v {
                    ValidatorTag::MultiMailboxNeedsSender => check_from_rule(entries),
                    ValidatorTag::ResentBlocks => check_resent_rule(entries),
                };
                if !holds {
                    let dup = fault_recorded(&faults, e.kind.name.as_str(), v);
                    if !dup {
                        let ghost prefaults = faults@;
                        faults.push(ValidationFault { kind: e.kind.name.clone(), validator: v });
                        proof {
                            let nf = prefaults.len() as int;
                            assert(faults@ == prefaults.push(faults@[nf]));
                            assert(faults@[nf].kind@ == entries@[i as int].kind.name@);
                            assert(faults@[nf].validator == v);
                            assert(forall|m: int| 0 <= m < nf ==> faults@[m] == prefaults[m]);
                        }
                    }
                }
            }
            i = i + 1;
        }
        if faults.len() == 0 {
            proof {
                assert forall|j: int|
                    0 <= j < entries@.len() implies ((#[trigger] entries@[j]).kind.validator
                    matches Some(v) ==> validator_holds(v, entries@)) by {
                    let valopt = entries@[j].kind.validator;
                    if valopt is Some {
                        let v = valopt.unwrap();
                        if !validator_holds(v, entries@) {
                            assert(exists|k: int|
                                {
                                    &&& 0 <= k < faults@.len()
                                    &&& (#[trigger] faults@[k]).kind@ == entries@[j].kind.name@
                                    &&& faults@[k].validator == v
                                });
                            assert(false);
                        }
                    }
                }
            }
            Ok(())
        } else {
            proof {
                let f0 = faults@[0];
                let w0 = choose|w: int|
                    {
                        &&& 0 <= w < len
                        &&& (#[trigger] entries@[w]).kind.name@ == f0.kind@
                        &&& entries@[w].kind.validator == Some(f0.validator)
                        &&& !validator_holds(f0.validator, entries@)
                    };
                assert(entries@[w0].kind.validator == Some(f0.validator));
                assert(!all_validators_hold(entries@));
            }
            Err(ContextualValidationFailure { faults })
        }
    }
}

} // verus!
