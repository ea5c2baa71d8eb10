//! The descriptor grammar as a mathematical function on character sequences.
//!
//! Each `spec_parse_*` function maps an input sequence to either the parsed
//! value together with the unconsumed remainder, or `None` on failure.  The
//! `spec_*` functions are the total-consumption entry points: they succeed
//! only when the remainder is empty.

use vstd::prelude::*;

verus! {

/// Mathematical model of a base type: a primitive code or a reference
/// type carrying its class name.
pub enum SpecSingleType {
    Byte,
    Char,
    Double,
    Float,
    Int,
    Long,
    Reference(Seq<char>),
    Short,
    Boolean,
}

/// Mathematical model of a field descriptor: a base type with its array
/// nesting depth.
pub struct SpecFieldType {
    pub base: SpecSingleType,
    pub array_cnt: nat,
}

/// Mathematical model of a method descriptor: the parameter list in
/// declaration order and the return type.
pub struct SpecMethodType {
    pub params: Seq<SpecFieldType>,
    pub ret: SpecFieldType,
}

/// Mathematical model of a descriptor of either kind.
pub enum SpecDescriptor {
    Field(SpecFieldType),
    Method(SpecMethodType),
}

/// Position of the first terminator character (`;`) in `s`, if any.
pub open spec fn first_semi(s: Seq<char>) -> Option<int>
    decreases s.len(),
{
    if s.len() == 0 {
        None
    } else if s[0] == ';' {
        Some(0int)
    } else {
        match first_semi(s.skip(1)) {
            Some(i) => Some(i + 1),
            None => None,
        }
    }
}

/// `first_semi` finds exactly the least index holding a terminator.
pub proof fn lemma_first_semi(s: Seq<char>)
    ensures
        match first_semi(s) {
            Some(i) => 0 <= i < s.len() && s[i] == ';' && (forall|j: int|
                0 <= j < i ==> s[j] != ';'),
            None => forall|j: int| 0 <= j < s.len() ==> s[j] != ';',
        },
    decreases s.len(),
{
    if s.len() > 0 && s[0] != ';' {
        lemma_first_semi(s.skip(1));
        assert forall|j: int| 1 <= j < s.len() implies s.skip(1)[j - 1] == s[j] by {}
    }
}

/// Number of leading array markers (`[`) in `s`, with no cap.
pub open spec fn bracket_run(s: Seq<char>) -> nat
    decreases s.len(),
{
    if s.len() > 0 && s[0] == '[' {
        1 + bracket_run(s.skip(1))
    } else {
        0
    }
}

/// `bracket_run` counts exactly the longest leading run of array markers.
pub proof fn lemma_bracket_run(s: Seq<char>)
    ensures
        bracket_run(s) <= s.len(),
        forall|j: int| 0 <= j < bracket_run(s) ==> s[j] == '[',
        bracket_run(s) < s.len() ==> s[bracket_run(s) as int] != '[',
    decreases s.len(),
{
    if s.len() > 0 && s[0] == '[' {
        lemma_bracket_run(s.skip(1));
        assert forall|j: int| 1 <= j < s.len() implies s.skip(1)[j - 1] == s[j] by {}
    }
}

/// The capped array depth actually recorded for input `s`: the marker run,
/// but never more than 255 markers are consumed.
pub open spec fn capped_run(s: Seq<char>) -> nat {
    if bracket_run(s) <= 255 {
        bracket_run(s)
    } else {
        255nat
    }
}

/// Parse one base type at the head of `s`: a one-letter primitive code, or
/// `L`, a class name free of terminators, and the terminator itself.
pub open spec fn spec_parse_single(s: Seq<char>) -> Option<(SpecSingleType, Seq<char>)> {
    if s.len() == 0 {
        None
    } else if s[0] == 'B' {
        Some((SpecSingleType::Byte, s.skip(1)))
    } else if s[0] == 'C' {
        Some((SpecSingleType::Char, s.skip(1)))
    } else if s[0] == 'D' {
        Some((SpecSingleType::Double, s.skip(1)))
    } else if s[0] == 'F' {
        Some((SpecSingleType::Float, s.skip(1)))
    } else if s[0] == 'I' {
        Some((SpecSingleType::Int, s.skip(1)))
    } else if s[0] == 'J' {
        Some((SpecSingleType::Long, s.skip(1)))
    } else if s[0] == 'S' {
        Some((SpecSingleType::Short, s.skip(1)))
    } else if s[0] == 'Z' {
        Some((SpecSingleType::Boolean, s.skip(1)))
    } else if s[0] == 'L' {
        match first_semi(s.skip(1)) {
            Some(i) => Some(
                (SpecSingleType::Reference(s.skip(1).take(i)), s.skip(1).skip(i + 1)),
            ),
            None => None,
        }
    } else {
        None
    }
}

/// Parse one field descriptor at the head of `s`: at most 255 array
/// markers, then one base type.
pub open spec fn spec_parse_field(s: Seq<char>) -> Option<(SpecFieldType, Seq<char>)> {
    let k = capped_run(s);
    match spec_parse_single(s.skip(k as int)) {
        Some((b, rest)) => Some((SpecFieldType { base: b, array_cnt: k }, rest)),
        None => None,
    }
}

/// A successful base-type parse consumes at least one character, and the
/// remainder is the matching suffix of the input.
pub proof fn lemma_single_consumes(s: Seq<char>)
    ensures
        match spec_parse_single(s) {
            Some((b, rest)) => rest.len() < s.len() && rest == s.skip(s.len() - rest.len()),
            None => true,
        },
{
    if s.len() > 0 && s[0] == 'L' {
        lemma_first_semi(s.skip(1));
        if let Some(i) = first_semi(s.skip(1)) {
            assert(s.skip(1).skip(i + 1) =~= s.skip(i + 2));
        }
    }
}

/// A successful field parse consumes at least one character, and the
/// remainder is the matching suffix of the input.
pub proof fn lemma_field_consumes(s: Seq<char>)
    ensures
        match spec_parse_field(s) {
            Some((f, rest)) => rest.len() < s.len() && rest == s.skip(s.len() - rest.len()),
            None => true,
        },
{
    let k = capped_run(s);
    lemma_bracket_run(s);
    lemma_single_consumes(s.skip(k as int));
    if let Some((b, rest)) = spec_parse_single(s.skip(k as int)) {
        let m = s.skip(k as int).len() - rest.len();
        assert(s.skip(k as int).skip(m) =~= s.skip(k + m));
    }
}

/// Parse the parameter list: field descriptors, one after the other, as
/// long as one matches.  Never fails; an empty list is allowed.
pub open spec fn spec_parse_params(s: Seq<char>) -> (Seq<SpecFieldType>, Seq<char>)
    decreases s.len(),
{
    match spec_parse_field(s) {
        Some((f, rest)) => if rest.len() < s.len() {
            let r = spec_parse_params(rest);
            (seq![f] + r.0, r.1)
        } else {
            (Seq::empty(), s)
        },
        None => (Seq::empty(), s),
    }
}

/// Parse one method descriptor at the head of `s`: `(`, the parameter
/// list, `)`, then one field descriptor as the return type.
pub open spec fn spec_parse_method(s: Seq<char>) -> Option<(SpecMethodType, Seq<char>)> {
    if s.len() > 0 && s[0] == '(' {
        let pr = spec_parse_params(s.skip(1));
        if pr.1.len() > 0 && pr.1[0] == ')' {
            match spec_parse_field(pr.1.skip(1)) {
                Some((ret, rest)) => Some((SpecMethodType { params: pr.0, ret }, rest)),
                None => None,
            }
        } else {
            None
        }
    } else {
        None
    }
}

/// Parse a descriptor of either kind: a method descriptor if one matches,
/// otherwise a field descriptor.
pub open spec fn spec_parse_descriptor(s: Seq<char>) -> Option<(SpecDescriptor, Seq<char>)> {
    match spec_parse_method(s) {
        Some((m, rest)) => Some((SpecDescriptor::Method(m), rest)),
        None => match spec_parse_field(s) {
            Some((f, rest)) => Some((SpecDescriptor::Field(f), rest)),
            None => None,
        },
    }
}

/// Total-consumption parse of a base type.
pub open spec fn spec_single(s: Seq<char>) -> Option<SpecSingleType> {
    match spec_parse_single(s) {
        Some((b, rest)) => if rest.len() == 0 {
            Some(b)
        } else {
            None
        },
        None => None,
    }
}

/// Total-consumption parse of a field descriptor.
pub open spec fn spec_field(s: Seq<char>) -> Option<SpecFieldType> {
    match spec_parse_field(s) {
        Some((f, rest)) => if rest.len() == 0 {
            Some(f)
        } else {
            None
        },
        None => None,
    }
}

/// Total-consumption parse of a method descriptor.
pub open spec fn spec_method(s: Seq<char>) -> Option<SpecMethodType> {
    match spec_parse_method(s) {
        Some((m, rest)) => if rest.len() == 0 {
            Some(m)
        } else {
            None
        },
        None => None,
    }
}

/// Total-consumption parse of a descriptor of either kind.
pub open spec fn spec_descriptor(s: Seq<char>) -> Option<SpecDescriptor> {
    match spec_parse_descriptor(s) {
        Some((d, rest)) => if rest.len() == 0 {
            Some(d)
        } else {
            None
        },
        None => None,
    }
}

} // verus!
