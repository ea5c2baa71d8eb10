//! The verified recursive-descent parser behind the public `parse` entry
//! points.
//!
//! Each helper works at a character position `pos` within the input and is
//! proved to agree with the corresponding `spec_parse_*` function applied
//! to the suffix starting at `pos`.

use crate::grammar::bracket_run;
use crate::grammar::capped_run;
use crate::grammar::lemma_bracket_run;
use crate::grammar::lemma_field_consumes;
use crate::grammar::lemma_first_semi;
use crate::grammar::spec_descriptor;
use crate::grammar::spec_field;
use crate::grammar::spec_method;
use crate::grammar::spec_parse_descriptor;
use crate::grammar::spec_parse_field;
use crate::grammar::spec_parse_method;
use crate::grammar::spec_parse_params;
use crate::grammar::spec_parse_single;
use crate::grammar::spec_single;
use crate::types::Descriptor;
use crate::types::FieldType;
use crate::types::MethodType;
use crate::types::SingleType;
use vstd::prelude::*;
use vstd::string::StrSliceExecFns;
use vstd::string::StringExecFns;

verus! {

/// Parse one base type starting at `pos`.  On success the returned
/// position points just past the consumed characters.
fn single_at(s: &str, n: usize, pos: usize) -> (r: Option<(SingleType, usize)>)
    requires
        n == s@.len(),
        pos <= n,
    ensures
        match r {
            Some((t, p2)) => pos < p2 <= n && spec_parse_single(s@.skip(pos as int))
                == Some((t@, s@.skip(p2 as int))),
            None => spec_parse_single(s@.skip(pos as int)) is None,
        },
{
    let ghost su = s@.skip(pos as int);
    if pos >= n {
        return None;
    }
    let c = s.get_char(pos);
    proof {
        assert(su[0] == s@[pos as int]);
        assert(su.skip(1) =~= s@.skip(pos as int + 1));
    }
    if c == 'B' {
        Some((SingleType::Byte, pos + 1))
    } else if c == 'C' {
        Some((SingleType::Char, pos + 1))
    } else if c == 'D' {
        Some((SingleType::Double, pos + 1))
    } else if c == 'F' {
        Some((SingleType::Float, pos + 1))
    } else if c == 'I' {
        Some((SingleType::Int, pos + 1))
    } else if c == 'J' {
        Some((SingleType::Long, pos + 1))
    } else if c == 'S' {
        Some((SingleType::Short, pos + 1))
    } else if c == 'Z' {
        Some((SingleType::Boolean, pos + 1))
    } else if c == 'L' {
        let mut i: usize = pos + 1;
        loop
            invariant
                n == s@.len(),
                pos < n,
                s@[pos as int] == 'L',
                pos + 1 <= i <= n,
                forall|j: int| pos + 1 <= j < i ==> s@[j] != ';',
            ensures
                pos + 1 <= i < n,
                s@[i as int] == ';',
                forall|j: int| pos + 1 <= j < i ==> s@[j] != ';',
            decreases n - i,
        {
            if i >= n {
                proof {
                    let tail = s@.skip(pos as int).skip(1);
                    lemma_first_semi(tail);
                    assert(tail =~= s@.skip(pos as int + 1));
                    assert forall|j: int| 0 <= j < tail.len() implies tail[j] != ';' by {
                        assert(tail[j] == s@[pos + 1 + j]);
                    }
                    assert(s@.skip(pos as int)[0] == 'L');
                }
                return None;
            }
            if s.get_char(i) == ';' {
                break;
            }
            i = i + 1;
        }
        // s@[i] is the first terminator at or after position pos + 1
        proof {
            let tail = s@.skip(pos as int).skip(1);
            lemma_first_semi(tail);
            assert(tail =~= s@.skip(pos as int + 1));
            assert(tail[i - pos - 1] == s@[i as int]);
            assert forall|j: int| 0 <= j < i - pos - 1 implies tail[j] != ';' by {
                assert(tail[j] == s@[pos + 1 + j]);
            }
        }
        let name = s.substring_char(pos + 1, i);
        proof {
            let tail = s@.skip(pos as int).skip(1);
            let k = i - pos - 1;
            assert(tail.take(k) =~= s@.subrange(pos as int + 1, i as int));
            assert(tail.skip(k + 1) =~= s@.skip(i as int + 1));
            assert(s@.skip(pos as int)[0] == 'L');
        }
        Some((SingleType::Reference(String::from_str(name)), i + 1))
    } else {
        None
    }
}

/// Parse one field descriptor starting at `pos`: a run of at most 255
/// array markers, then one base type.
fn field_at(s: &str, n: usize, pos: usize) -> (r: Option<(FieldType, usize)>)
    requires
        n == s@.len(),
        pos <= n,
    ensures
        match r {
            Some((f, p2)) => pos < p2 <= n && spec_parse_field(s@.skip(pos as int))
                == Some((f@, s@.skip(p2 as int))),
            None => spec_parse_field(s@.skip(pos as int)) is None,
        },
{
    let mut cnt: u8 = 0;
    let mut i: usize = pos;
    loop
        invariant
            n == s@.len(),
            pos <= i <= n,
            i - pos == cnt as int,
            forall|j: int| pos <= j < i ==> s@[j] == '[',
        ensures
            pos <= i <= n,
            i - pos == cnt as int,
            forall|j: int| pos <= j < i ==> s@[j] == '[',
            cnt == 255 || i == n || s@[i as int] != '[',
        decreases n - i,
    {
        if cnt == 255 || i >= n {
            break;
        }
        if s.get_char(i) != '[' {
            break;
        }
        cnt = cnt + 1;
        i = i + 1;
    }
    proof {
        let su = s@.skip(pos as int);
        lemma_bracket_run(su);
        assert forall|j: int| 0 <= j < i - pos implies su[j] == '[' by {
            assert(su[j] == s@[pos + j]);
        }
        if cnt < 255 {
            if i < n {
                assert(su[i - pos] == s@[i as int]);
            }
            if bracket_run(su) < i - pos {
                assert(su[bracket_run(su) as int] == '[');
            }
            assert(bracket_run(su) == i - pos);
        } else {
            if bracket_run(su) < 255 {
                assert(su[bracket_run(su) as int] == '[');
            }
        }
        assert(capped_run(su) == cnt as nat);
        assert(su.skip(cnt as int) =~= s@.skip(i as int));
    }
    match single_at(s, n, i) {
        Some((t, p2)) => Some((FieldType { base: t, array_cnt: cnt }, p2)),
        None => None,
    }
}

/// Parse one method descriptor starting at `pos`: `(`, the parameter
/// list, `)`, then the return type.
fn method_at(s: &str, n: usize, pos: usize) -> (r: Option<(MethodType, usize)>)
    requires
        n == s@.len(),
        pos <= n,
    ensures
        match r {
            Some((m, p2)) => pos < p2 <= n && spec_parse_method(s@.skip(pos as int))
                == Some((m@, s@.skip(p2 as int))),
            None => spec_parse_method(s@.skip(pos as int)) is None,
        },
{
    let ghost vf = |f: FieldType| f@;
    if pos >= n {
        return None;
    }
    if s.get_char(pos) != '(' {
        proof {
            assert(s@.skip(pos as int)[0] == s@[pos as int]);
        }
        return None;
    }
    proof {
        assert(s@.skip(pos as int)[0] == s@[pos as int]);
        assert(s@.skip(pos as int).skip(1) =~= s@.skip(pos as int + 1));
    }
    let mut params: Vec<FieldType> = Vec::new();
    let mut i: usize = pos + 1;
    loop
        invariant
            n == s@.len(),
            pos + 1 <= i <= n,
            vf == (|f: FieldType| f@),
            spec_parse_params(s@.skip(pos as int + 1)).0 == params@.map_values(vf)
                + spec_parse_params(s@.skip(i as int)).0,
            spec_parse_params(s@.skip(pos as int + 1)).1 == spec_parse_params(
                s@.skip(i as int),
            ).1,
        ensures
            pos + 1 <= i <= n,
            spec_parse_params(s@.skip(pos as int + 1)).0 == params@.map_values(vf),
            spec_parse_params(s@.skip(pos as int + 1)).1 == s@.skip(i as int),
            spec_parse_field(s@.skip(i as int)) is None,
        decreases n - i,
    {
        match field_at(s, n, i) {
            Some((f, p2)) => {
                proof {
                    let cur = s@.skip(i as int);
                    let nxt = s@.skip(p2 as int);
                    lemma_field_consumes(cur);
                    assert(spec_parse_params(cur).0 =~= seq![f@]
                        + spec_parse_params(nxt).0);
                    params@.lemma_push_map_commute(vf, f);
                    assert(params@.map_values(vf) + (seq![f@] + spec_parse_params(nxt).0)
                        =~= params@.push(f).map_values(vf) + spec_parse_params(nxt).0);
                }
                params.push(f);
                i = p2;
            },
            None => {
                proof {
                    let cur = s@.skip(i as int);
                    assert(spec_parse_params(cur).0 =~= Seq::<
                        crate::grammar::SpecFieldType,
                    >::empty());
                    assert(params@.map_values(vf) + spec_parse_params(cur).0
                        =~= params@.map_values(vf));
                }
                break;
            },
        }
    }
    if i >= n {
        return None;
    }
    if s.get_char(i) != ')' {
        proof {
            assert(s@.skip(i as int)[0] == s@[i as int]);
        }
        return None;
    }
    proof {
        assert(s@.skip(i as int)[0] == s@[i as int]);
        assert(s@.skip(i as int).skip(1) =~= s@.skip(i as int + 1));
    }
    match field_at(s, n, i + 1) {
        Some((ret, p2)) => Some((MethodType { params, ret }, p2)),
        None => None,
    }
}

/// Parse one descriptor of either kind starting at `pos`: a method
/// descriptor if one matches, otherwise a field descriptor.
fn descriptor_at(s: &str, n: usize, pos: usize) -> (r: Option<(Descriptor, usize)>)
    requires
        n == s@.len(),
        pos <= n,
    ensures
        match r {
            Some((d, p2)) => pos < p2 <= n && spec_parse_descriptor(s@.skip(pos as int))
                == Some((d@, s@.skip(p2 as int))),
            None => spec_parse_descriptor(s@.skip(pos as int)) is None,
        },
{
    match method_at(s, n, pos) {
        Some((m, p2)) => Some((Descriptor::Method(m), p2)),
        None => match field_at(s, n, pos) {
            Some((f, p2)) => Some((Descriptor::Field(f), p2)),
            None => None,
        },
    }
}

impl SingleType {
    /// Parses a whole input as one base type; any unconsumed suffix, or no
    /// match at all, yields `None`.
    pub fn parse(input: &str) -> (r: Option<Self>)
        ensures
            match r {
                Some(t) => spec_single(input@) == Some(t@),
                None => spec_single(input@) is None,
            },
    {
        let n = input.unicode_len();
        proof {
            assert(input@.skip(0) =~= input@);
        }
        match single_at(input, n, 0) {
            Some((t, p2)) => if p2 == n {
                Some(t)
            } else {
                None
            },
            None => None,
        }
    }
}

impl FieldType {
    /// Parses a whole input as one field descriptor; any unconsumed
    /// suffix, or no match at all, yields `None`.
    pub fn parse(input: &str) -> (r: Option<Self>)
        ensures
            match r {
                Some(f) => spec_field(input@) == Some(f@),
                None => spec_field(input@) is None,
            },
    {
        let n = input.unicode_len();
        proof {
            assert(input@.skip(0) =~= input@);
        }
        match field_at(input, n, 0) {
            Some((f, p2)) => if p2 == n {
                Some(f)
            } else {
                None
            },
            None => None,
        }
    }
}

impl MethodType {
    /// Parses a whole input as one method descriptor; any unconsumed
    /// suffix, or no match at all, yields `None`.
    pub fn parse(input: &str) -> (r: Option<Self>)
        ensures
            match r {
                Some(m) => spec_method(input@) == Some(m@),
                None => spec_method(input@) is None,
            },
    {
        let n = input.unicode_len();
        proof {
            assert(input@.skip(0) =~= input@);
        }
        match method_at(input, n, 0) {
            Some((m, p2)) => if p2 == n {
                Some(m)
            } else {
                None
            },
            None => None,
        }
    }
}

impl Descriptor {
    /// Parses a whole input as a descriptor of either kind; any
    /// unconsumed suffix, or no match at all, yields `None`.
    pub fn parse(input: &str) -> (r: Option<Self>)
        ensures
            match r {
                Some(d) => spec_descriptor(input@) == Some(d@),
                None => spec_descriptor(input@) is None,
            },
    {
        let n = input.unicode_len();
        proof {
            assert(input@.skip(0) =~= input@);
        }
        match descriptor_at(input, n, 0) {
            Some((d, p2)) => if p2 == n {
                Some(d)
            } else {
                None
            },
            None => None,
        }
    }
}

} // verus!
