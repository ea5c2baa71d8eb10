//! Canonical rendering of descriptor values, as a mathematical function,
//! and the laws tying the parser to it.
//!
//! Rendering is specification-only: the library never produces descriptor
//! text.  It exists so the round-trip law can be stated and proved: every
//! well-formed value, rendered to its canonical text and parsed back,
//! yields the same value.

use crate::grammar::bracket_run;
use crate::grammar::capped_run;
use crate::grammar::first_semi;
use crate::grammar::lemma_bracket_run;
use crate::grammar::lemma_field_consumes;
use crate::grammar::lemma_first_semi;
use crate::grammar::spec_descriptor;
use crate::grammar::spec_field;
use crate::grammar::spec_method;
use crate::grammar::spec_parse_field;
use crate::grammar::spec_parse_method;
use crate::grammar::spec_parse_params;
use crate::grammar::spec_parse_single;
use crate::grammar::spec_single;
use crate::grammar::SpecDescriptor;
use crate::grammar::SpecFieldType;
use crate::grammar::SpecMethodType;
use crate::grammar::SpecSingleType;
use vstd::prelude::*;

verus! {

/// A base-type value the grammar itself can produce: a reference name
/// never contains the terminator character.
pub open spec fn wf_single(t: SpecSingleType) -> bool {
    match t {
        SpecSingleType::Reference(name) => !name.contains(';'),
        _ => true,
    }
}

/// A field-descriptor value the grammar itself can produce: a well-formed
/// base and an array depth of at most 255.
pub open spec fn wf_field(f: SpecFieldType) -> bool {
    wf_single(f.base) && f.array_cnt <= 255
}

/// A method-descriptor value the grammar itself can produce.
pub open spec fn wf_method(m: SpecMethodType) -> bool {
    wf_field(m.ret) && forall|i: int| 0 <= i < m.params.len() ==> wf_field(#[trigger] m.params[i])
}

/// A descriptor value of either kind the grammar itself can produce.
pub open spec fn wf_descriptor(d: SpecDescriptor) -> bool {
    match d {
        SpecDescriptor::Field(f) => wf_field(f),
        SpecDescriptor::Method(m) => wf_method(m),
    }
}

/// Canonical text of a base type.
pub open spec fn render_single(t: SpecSingleType) -> Seq<char> {
    match t {
        SpecSingleType::Byte => seq!['B'],
        SpecSingleType::Char => seq!['C'],
        SpecSingleType::Double => seq!['D'],
        SpecSingleType::Float => seq!['F'],
        SpecSingleType::Int => seq!['I'],
        SpecSingleType::Long => seq!['J'],
        SpecSingleType::Reference(name) => seq!['L'] + name + seq![';'],
        SpecSingleType::Short => seq!['S'],
        SpecSingleType::Boolean => seq!['Z'],
    }
}

/// Canonical text of a field descriptor: one array marker per nesting
/// level, then the base type.
pub open spec fn render_field(f: SpecFieldType) -> Seq<char> {
    Seq::new(f.array_cnt, |i: int| '[') + render_single(f.base)
}

/// Canonical text of a parameter list: the fields, one after the other.
pub open spec fn render_params(ps: Seq<SpecFieldType>) -> Seq<char>
    decreases ps.len(),
{
    if ps.len() == 0 {
        Seq::empty()
    } else {
        render_field(ps[0]) + render_params(ps.skip(1))
    }
}

/// Canonical text of a method descriptor.
pub open spec fn render_method(m: SpecMethodType) -> Seq<char> {
    seq!['('] + render_params(m.params) + seq![')'] + render_field(m.ret)
}

/// Canonical text of a descriptor of either kind.
pub open spec fn render_descriptor(d: SpecDescriptor) -> Seq<char> {
    match d {
        SpecDescriptor::Field(f) => render_field(f),
        SpecDescriptor::Method(m) => render_method(m),
    }
}

/// The canonical text of a base type is never empty and never opens with
/// a character that means something else in the grammar.
proof fn lemma_render_single_head(t: SpecSingleType)
    ensures
        render_single(t).len() >= 1,
        render_single(t)[0] != '[',
        render_single(t)[0] != '(',
        render_single(t)[0] != ')',
{
    match t {
        SpecSingleType::Reference(name) => {
            assert(render_single(t)[0] == 'L');
        },
        _ => {},
    }
}

/// Parsing the canonical text of a well-formed base type, with anything
/// appended, consumes exactly that text and yields the value back.
proof fn lemma_render_single_parses(t: SpecSingleType, rest: Seq<char>)
    requires
        wf_single(t),
    ensures
        spec_parse_single(render_single(t) + rest) == Some((t, rest)),
{
    let u = render_single(t) + rest;
    match t {
        SpecSingleType::Reference(name) => {
            assert(u[0] == 'L');
            let v = u.skip(1);
            assert(v =~= name + seq![';'] + rest);
            lemma_first_semi(v);
            assert(v[name.len() as int] == ';');
            assert forall|j: int| 0 <= j < name.len() implies v[j] != ';' by {
                assert(v[j] == name[j]);
                if name[j] == ';' {
                    assert(name.contains(';'));
                }
            }
            assert(first_semi(v) == Some(name.len() as int));
            assert(v.take(name.len() as int) =~= name);
            assert(v.skip(name.len() as int + 1) =~= rest);
        },
        _ => {
            assert(u.skip(1) =~= rest);
        },
    }
}

/// Parsing the canonical text of a well-formed field descriptor, with
/// anything appended, consumes exactly that text and yields the value
/// back.
proof fn lemma_render_field_parses(f: SpecFieldType, rest: Seq<char>)
    requires
        wf_field(f),
    ensures
        spec_parse_field(render_field(f) + rest) == Some((f, rest)),
{
    let u = render_field(f) + rest;
    let k = f.array_cnt as int;
    lemma_render_single_head(f.base);
    lemma_bracket_run(u);
    assert forall|j: int| 0 <= j < k implies u[j] == '[' by {
        assert(u[j] == Seq::new(f.array_cnt, |i: int| '[')[j]);
    }
    assert(u[k] == render_single(f.base)[0]);
    if bracket_run(u) < k {
        assert(u[bracket_run(u) as int] == '[');
    }
    if bracket_run(u) > k {
        assert(u[k] == '[');
    }
    assert(bracket_run(u) == f.array_cnt);
    assert(capped_run(u) == f.array_cnt);
    assert(u.skip(k) =~= render_single(f.base) + rest);
    lemma_render_single_parses(f.base, rest);
}

/// Parsing the canonical text of a well-formed parameter list, followed
/// by a closing parenthesis and anything after it, consumes exactly the
/// list and yields it back.
proof fn lemma_render_params_parses(ps: Seq<SpecFieldType>, tail: Seq<char>)
    requires
        forall|i: int| 0 <= i < ps.len() ==> wf_field(#[trigger] ps[i]),
        tail.len() > 0,
        tail[0] == ')',
    ensures
        spec_parse_params(render_params(ps) + tail) == (ps, tail),
    decreases ps.len(),
{
    if ps.len() == 0 {
        let u = render_params(ps) + tail;
        assert(u =~= tail);
        assert(spec_parse_single(tail) is None);
        assert(bracket_run(tail) == 0);
        assert(tail.skip(0) =~= tail);
        assert(spec_parse_field(tail) is None);
        assert(spec_parse_params(u).0 =~= ps);
    } else {
        let rec = render_params(ps.skip(1)) + tail;
        let u = render_params(ps) + tail;
        assert(u =~= render_field(ps[0]) + rec);
        lemma_render_field_parses(ps[0], rec);
        lemma_render_single_head(ps[0].base);
        assert(rec.len() < u.len());
        lemma_render_params_parses(ps.skip(1), tail);
        assert(seq![ps[0]] + ps.skip(1) =~= ps);
    }
}

/// Law: the canonical text of a well-formed base type parses back, as a
/// whole input, to exactly that value.
pub proof fn lemma_round_trip_single(t: SpecSingleType)
    requires
        wf_single(t),
    ensures
        spec_single(render_single(t)) == Some(t),
{
    lemma_render_single_parses(t, Seq::empty());
    assert(render_single(t) + Seq::<char>::empty() =~= render_single(t));
}

/// Law: the canonical text of a well-formed field descriptor parses back,
/// as a whole input, to exactly that value.
pub proof fn lemma_round_trip_field(f: SpecFieldType)
    requires
        wf_field(f),
    ensures
        spec_field(render_field(f)) == Some(f),
{
    lemma_render_field_parses(f, Seq::empty());
    assert(render_field(f) + Seq::<char>::empty() =~= render_field(f));
}

/// Law: the canonical text of a well-formed method descriptor parses
/// back, as a whole input, to exactly that value.
pub proof fn lemma_round_trip_method(m: SpecMethodType)
    requires
        wf_method(m),
    ensures
        spec_method(render_method(m)) == Some(m),
{
    let u = render_method(m);
    let tail = seq![')'] + render_field(m.ret);
    assert(u[0] == '(');
    assert(u.skip(1) =~= render_params(m.params) + tail);
    lemma_render_params_parses(m.params, tail);
    assert(tail.skip(1) =~= render_field(m.ret));
    lemma_render_field_parses(m.ret, Seq::empty());
    assert(render_field(m.ret) + Seq::<char>::empty() =~= render_field(m.ret));
}

/// Law: the canonical text of a well-formed descriptor of either kind
/// parses back, as a whole input, to exactly that value, under the same
/// tag.
pub proof fn lemma_round_trip_descriptor(d: SpecDescriptor)
    requires
        wf_descriptor(d),
    ensures
        spec_descriptor(render_descriptor(d)) == Some(d),
{
    match d {
        SpecDescriptor::Field(f) => {
            lemma_render_field_parses(f, Seq::empty());
            assert(render_field(f) + Seq::<char>::empty() =~= render_field(f));
            lemma_render_single_head(f.base);
            let u = render_field(f);
            if f.array_cnt == 0 {
                assert(u[0] == render_single(f.base)[0]);
            } else {
                assert(u[0] == Seq::new(f.array_cnt, |i: int| '[')[0]);
            }
            assert(spec_parse_method(u) is None);
        },
        SpecDescriptor::Method(m) => {
            lemma_round_trip_method(m);
        },
    }
}

/// A base type matched anywhere in an input is well-formed: a reference
/// name stops before the first terminator, so it never contains one.
proof fn lemma_parse_single_wf(s: Seq<char>)
    ensures
        match spec_parse_single(s) {
            Some((b, rest)) => wf_single(b),
            None => true,
        },
{
    if s.len() > 0 && s[0] == 'L' {
        let v = s.skip(1);
        lemma_first_semi(v);
        if let Some(i) = first_semi(v) {
            let name = v.take(i);
            assert forall|j: int| 0 <= j < name.len() implies name[j] != ';' by {
                assert(name[j] == v[j]);
            }
            assert(!name.contains(';'));
        }
    }
}

/// A field descriptor matched anywhere in an input is well-formed: the
/// recorded array depth never exceeds 255.
proof fn lemma_parse_field_wf(s: Seq<char>)
    ensures
        match spec_parse_field(s) {
            Some((f, rest)) => wf_field(f),
            None => true,
        },
{
    lemma_parse_single_wf(s.skip(capped_run(s) as int));
}

/// Every field descriptor in a matched parameter list is well-formed.
proof fn lemma_parse_params_wf(s: Seq<char>)
    ensures
        forall|i: int| 0 <= i < spec_parse_params(s).0.len() ==> wf_field(
            #[trigger] spec_parse_params(s).0[i],
        ),
    decreases s.len(),
{
    lemma_parse_field_wf(s);
    if let Some((f, rest)) = spec_parse_field(s) {
        if rest.len() < s.len() {
            lemma_parse_params_wf(rest);
            let ps = spec_parse_params(s).0;
            let rec = spec_parse_params(rest).0;
            assert forall|i: int| 0 <= i < ps.len() implies wf_field(ps[i]) by {
                if i == 0 {
                    assert(ps[i] == f);
                } else {
                    assert(ps[i] == rec[i - 1]);
                }
            }
        }
    }
}

/// Law: every value a successful parse produces is well-formed, so the
/// round-trip laws apply to it.
pub proof fn lemma_parsed_well_formed(s: Seq<char>)
    ensures
        spec_single(s) matches Some(t) ==> wf_single(t),
        spec_field(s) matches Some(f) ==> wf_field(f),
        spec_method(s) matches Some(m) ==> wf_method(m),
        spec_descriptor(s) matches Some(d) ==> wf_descriptor(d),
{
    lemma_parse_single_wf(s);
    lemma_parse_field_wf(s);
    if s.len() > 0 && s[0] == '(' {
        lemma_parse_params_wf(s.skip(1));
        let pr = spec_parse_params(s.skip(1));
        if pr.1.len() > 0 && pr.1[0] == ')' {
            lemma_parse_field_wf(pr.1.skip(1));
        }
    }
}

/// Law: empty input yields absence at every entry point.
pub proof fn lemma_empty_input()
    ensures
        spec_single(Seq::<char>::empty()) is None,
        spec_field(Seq::<char>::empty()) is None,
        spec_method(Seq::<char>::empty()) is None,
        spec_descriptor(Seq::<char>::empty()) is None,
{
    let e = Seq::<char>::empty();
    assert(e.skip(0) =~= e);
}

/// Parsing an extended input matches the same prefix and leaves the
/// extension at the head of the remainder (base types).
proof fn lemma_parse_single_extend(s: Seq<char>, t: Seq<char>)
    ensures
        match spec_parse_single(s) {
            Some((b, rest)) => spec_parse_single(s + t) == Some((b, rest + t)),
            None => true,
        },
{
    if let Some((b, rest)) = spec_parse_single(s) {
        let u = s + t;
        assert(u[0] == s[0]);
        if s[0] == 'L' {
            let v = s.skip(1);
            let w = u.skip(1);
            assert(w =~= v + t);
            lemma_first_semi(v);
            lemma_first_semi(w);
            let i = first_semi(v).unwrap();
            assert(w[i] == v[i]);
            assert forall|j: int| 0 <= j < i implies w[j] != ';' by {
                assert(w[j] == v[j]);
            }
            assert(first_semi(w) == Some(i));
            assert(w.take(i) =~= v.take(i));
            assert(w.skip(i + 1) =~= v.skip(i + 1) + t);
        } else {
            assert(u.skip(1) =~= s.skip(1) + t);
        }
    }
}

/// Parsing an extended input matches the same prefix and leaves the
/// extension at the head of the remainder (field descriptors).
proof fn lemma_parse_field_extend(s: Seq<char>, t: Seq<char>)
    ensures
        match spec_parse_field(s) {
            Some((f, rest)) => spec_parse_field(s + t) == Some((f, rest + t)),
            None => true,
        },
{
    if let Some((f, rest)) = spec_parse_field(s) {
        let u = s + t;
        let k = capped_run(s) as int;
        lemma_bracket_run(s);
        lemma_bracket_run(u);
        assert(spec_parse_single(s.skip(k)) is Some);
        assert(s.skip(k).len() > 0);
        assert(s.skip(k)[0] == s[k]);
        assert(s[k] != '[');
        if bracket_run(s) > k {
            assert(s[k] == '[');
        }
        assert(bracket_run(s) == k);
        assert forall|j: int| 0 <= j < k implies u[j] == '[' by {
            assert(u[j] == s[j]);
        }
        assert(u[k] == s[k]);
        if bracket_run(u) < k {
            assert(u[bracket_run(u) as int] == '[');
        }
        if bracket_run(u) > k {
            assert(u[k] == '[');
        }
        assert(bracket_run(u) == k);
        assert(u.skip(k) =~= s.skip(k) + t);
        lemma_parse_single_extend(s.skip(k), t);
    }
}

/// Parsing an extended input matches the same parameter list whenever the
/// original list ends at a closing parenthesis, which the extension
/// cannot disturb.
proof fn lemma_parse_params_extend(u: Seq<char>, t: Seq<char>)
    requires
        spec_parse_params(u).1.len() > 0,
        spec_parse_params(u).1[0] == ')',
    ensures
        spec_parse_params(u + t) == (spec_parse_params(u).0, spec_parse_params(u).1 + t),
    decreases u.len(),
{
    match spec_parse_field(u) {
        Some((f, rest)) => {
            lemma_field_consumes(u);
            lemma_parse_field_extend(u, t);
            lemma_field_consumes(u + t);
            lemma_parse_params_extend(rest, t);
            assert(seq![f] + spec_parse_params(rest + t).0 =~= spec_parse_params(u).0);
        },
        None => {
            assert(u.len() > 0 && u[0] == ')');
            let w = u + t;
            assert(w[0] == ')');
            assert(bracket_run(w) == 0);
            assert(w.skip(0) =~= w);
            assert(spec_parse_single(w) is None);
            assert(spec_parse_field(w) is None);
        },
    }
}

/// Law: trailing garbage causes failure.  When an input parses completely
/// at an entry point, that input with any non-empty suffix appended does
/// not parse at the same entry point.
pub proof fn lemma_trailing_garbage_single(s: Seq<char>, t: Seq<char>)
    requires
        spec_single(s) is Some,
        t.len() > 0,
    ensures
        spec_single(s + t) is None,
{
    lemma_parse_single_extend(s, t);
}

/// Law: trailing garbage causes failure (field descriptors).
pub proof fn lemma_trailing_garbage_field(s: Seq<char>, t: Seq<char>)
    requires
        spec_field(s) is Some,
        t.len() > 0,
    ensures
        spec_field(s + t) is None,
{
    lemma_parse_field_extend(s, t);
}

/// Law: trailing garbage causes failure (method descriptors).
pub proof fn lemma_trailing_garbage_method(s: Seq<char>, t: Seq<char>)
    requires
        spec_method(s) is Some,
        t.len() > 0,
    ensures
        spec_method(s + t) is None,
{
    let w = s + t;
    assert(w[0] == s[0]);
    assert(w.skip(1) =~= s.skip(1) + t);
    lemma_parse_params_extend(s.skip(1), t);
    let pr = spec_parse_params(s.skip(1));
    assert((pr.1 + t)[0] == ')');
    assert((pr.1 + t).skip(1) =~= pr.1.skip(1) + t);
    lemma_parse_field_extend(pr.1.skip(1), t);
}

/// Law: trailing garbage causes failure (descriptors of either kind).
pub proof fn lemma_trailing_garbage_descriptor(s: Seq<char>, t: Seq<char>)
    requires
        spec_descriptor(s) is Some,
        t.len() > 0,
    ensures
        spec_descriptor(s + t) is None,
{
    let w = s + t;
    assert(w[0] == s[0]);
    if spec_parse_method(s) is Some {
        assert(w.skip(1) =~= s.skip(1) + t);
        lemma_parse_params_extend(s.skip(1), t);
        let pr = spec_parse_params(s.skip(1));
        assert((pr.1 + t)[0] == ')');
        assert((pr.1 + t).skip(1) =~= pr.1.skip(1) + t);
        lemma_parse_field_extend(pr.1.skip(1), t);
    } else {
        if s[0] == '(' {
            lemma_paren_dispatch(s);
        }
        lemma_parse_field_extend(s, t);
    }
}

/// Law: an unterminated reference fails.  An input whose base type opens
/// with the reference marker but holds no terminator anywhere behind it
/// is not a field descriptor, no matter how it would otherwise end.
pub proof fn lemma_unterminated_reference(s: Seq<char>)
    requires
        s.len() > 0,
        s[0] == 'L',
        forall|j: int| 1 <= j < s.len() ==> s[j] != ';',
    ensures
        spec_single(s) is None,
        spec_field(s) is None,
{
    assert(bracket_run(s) == 0);
    assert(s.skip(0) =~= s);
    lemma_first_semi(s.skip(1));
    assert forall|j: int| 0 <= j < s.skip(1).len() implies s.skip(1)[j] != ';' by {
        assert(s.skip(1)[j] == s[j + 1]);
    }
    assert(spec_parse_single(s) is None);
}

/// Law: an input opening with a parenthesis is never a field descriptor,
/// so the dispatcher's answer on it is exactly the method recognizer's
/// answer; trying the field grammar first could not change the result.
pub proof fn lemma_paren_dispatch(s: Seq<char>)
    requires
        s.len() > 0,
        s[0] == '(',
    ensures
        spec_field(s) is None,
        spec_descriptor(s) == (match spec_method(s) {
            Some(m) => Some(SpecDescriptor::Method(m)),
            None => None,
        }),
{
    assert(bracket_run(s) == 0);
    assert(s.skip(0) =~= s);
    assert(spec_parse_single(s) is None);
    assert(spec_parse_field(s) is None);
}

} // verus!
