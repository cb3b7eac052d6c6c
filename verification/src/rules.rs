//! The mapping-rule grammar and its parser.
//!
//! A rule string is a comma-separated list of rules. Each rule is
//! `source=target` or `source=-target`, where `source` and `target` are
//! canonical axis names: the first form retargets the source axis onto the
//! target axis unchanged, the second additionally inverts the value within
//! the source axis's range. The rules fold into a map from source axis code
//! to mapping entry; when one source axis appears in several rules, the last
//! rule wins. The empty string yields the empty rule set, under which every
//! axis passes through identically.

use std::collections::HashMap;
use vstd::prelude::*;

use crate::axis::{axis_code_of, parse_axis_name};

verus! {

broadcast use vstd::std_specs::hash::group_hash_axioms;

/// One entry of the rule set: the axis the source axis is retargeted onto,
/// and whether the value is inverted within the source axis's range.
#[derive(Debug, Clone, Copy, PartialEq, Eq, Structural)]
pub struct Mapping {
    pub to_code: u16,
    pub invert: bool,
}

impl Mapping {
    /// The direct (uninverted) mapping onto the given axis.
    pub fn from_abs(code: u16) -> (r: Self)
        ensures
            r == (Mapping { to_code: code, invert: false }),
    {
        Mapping { to_code: code, invert: false }
    }

    /// The inverted mapping onto the given axis.
    pub fn from_abs_inv(code: u16) -> (r: Self)
        ensures
            r == (Mapping { to_code: code, invert: true }),
    {
        Mapping { to_code: code, invert: true }
    }
}

/// Why a rule string was rejected.
#[derive(Debug, Clone, Copy, PartialEq, Eq, Structural)]
pub enum ParseError {
    /// A rule does not contain exactly one `=`.
    MalformedRule,
    /// The target of a rule is neither `axis` nor `-axis`.
    MalformedTarget,
    /// An axis name resolves to no known axis.
    UnknownAxis,
}

/// How many times the character `c` occurs in `s`.
pub open spec fn count_char(s: Seq<char>, c: char) -> nat
    decreases s.len(),
{
    if s.len() == 0 {
        0
    } else {
        count_char(s.drop_last(), c) + if s.last() == c {
            1nat
        } else {
            0nat
        }
    }
}

/// The index of the first occurrence of `c` in `s`, or `s.len()` when `c`
/// does not occur.
pub open spec fn first_index(s: Seq<char>, c: char) -> int
    decreases s.len(),
{
    if s.len() == 0 {
        0
    } else if first_index(s.drop_last(), c) < s.len() - 1 {
        first_index(s.drop_last(), c)
    } else if s[s.len() - 1] == c {
        s.len() - 1
    } else {
        s.len() as int
    }
}

/// The parse of a single rule `source=target-spec`.
///
/// The rule must contain exactly one `=`; the part before it must be a known
/// axis name; the part after it must be either a known axis name (direct
/// mapping) or a known axis name under a single leading `-` (inverted
/// mapping). Errors are reported in that order.
pub open spec fn spec_parse_rule(s: Seq<char>) -> Result<(u16, Mapping), ParseError> {
    if count_char(s, '=') != 1 {
        Err(ParseError::MalformedRule)
    } else {
        let p = first_index(s, '=');
        let l = s.subrange(0, p);
        let r = s.subrange(p + 1, s.len() as int);
        match axis_code_of(l) {
            None => Err(ParseError::UnknownAxis),
            Some(src) => {
                let d = count_char(r, '-');
                if d == 0 {
                    match axis_code_of(r) {
                        None => Err(ParseError::UnknownAxis),
                        Some(t) => Ok((src, Mapping { to_code: t, invert: false })),
                    }
                } else if d == 1 && r[0] == '-' {
                    match axis_code_of(r.subrange(1, r.len() as int)) {
                        None => Err(ParseError::UnknownAxis),
                        Some(t) => Ok((src, Mapping { to_code: t, invert: true })),
                    }
                } else {
                    Err(ParseError::MalformedTarget)
                }
            },
        }
    }
}

/// The parse of the comma-separated rules in `s`, folded left to right onto
/// the already-collected entries `acc`: the first failing rule's error wins,
/// and a later rule for the same source axis overwrites an earlier one.
pub open spec fn spec_parse_rules_from(s: Seq<char>, acc: Map<u16, Mapping>) -> Result<
    Map<u16, Mapping>,
    ParseError,
>
    decreases s.len(),
    via spec_parse_rules_from_decreases
{
    if count_char(s, ',') == 0 {
        match spec_parse_rule(s) {
            Err(e) => Err(e),
            Ok((src, m)) => Ok(acc.insert(src, m)),
        }
    } else {
        let p = first_index(s, ',');
        match spec_parse_rule(s.subrange(0, p)) {
            Err(e) => Err(e),
            Ok((src, m)) => spec_parse_rules_from(s.subrange(p + 1, s.len() as int), acc.insert(src, m)),
        }
    }
}

#[via_fn]
proof fn spec_parse_rules_from_decreases(s: Seq<char>, acc: Map<u16, Mapping>) {
    if count_char(s, ',') != 0 {
        lemma_first_index(s, ',');
    }
}

/// The parse of a whole rule string: the empty string yields the empty rule
/// set, anything else is parsed rule by rule.
pub open spec fn spec_parse_rules(s: Seq<char>) -> Result<Map<u16, Mapping>, ParseError> {
    if s.len() == 0 {
        Ok(Map::<u16, Mapping>::empty())
    } else {
        spec_parse_rules_from(s, Map::<u16, Mapping>::empty())
    }
}

proof fn lemma_count_char_zero(s: Seq<char>, c: char)
    ensures
        (count_char(s, c) == 0) <==> (forall|k: int| 0 <= k < s.len() ==> s[k] != c),
    decreases s.len(),
{
    if s.len() > 0 {
        lemma_count_char_zero(s.drop_last(), c);
        assert(forall|k: int| 0 <= k < s.len() - 1 ==> s.drop_last()[k] == s[k]);
    }
}

proof fn lemma_first_index(s: Seq<char>, c: char)
    ensures
        0 <= first_index(s, c) <= s.len(),
        first_index(s, c) < s.len() ==> s[first_index(s, c)] == c,
        forall|k: int| 0 <= k < first_index(s, c) ==> s[k] != c,
        (first_index(s, c) == s.len()) <==> (count_char(s, c) == 0),
    decreases s.len(),
{
    if s.len() > 0 {
        lemma_first_index(s.drop_last(), c);
        lemma_count_char_zero(s.drop_last(), c);
        lemma_count_char_zero(s, c);
        assert(forall|k: int| 0 <= k < s.len() - 1 ==> s.drop_last()[k] == s[k]);
    }
}

proof fn lemma_count_char_split(s: Seq<char>, c: char, p: int)
    requires
        0 <= p <= s.len(),
    ensures
        count_char(s, c) == count_char(s.subrange(0, p), c) + count_char(
            s.subrange(p, s.len() as int),
            c,
        ),
    decreases s.len(),
{
    if p == s.len() {
        assert(s.subrange(0, p) =~= s);
        assert(s.subrange(p, s.len() as int) =~= Seq::<char>::empty());
    } else {
        let d = s.drop_last();
        lemma_count_char_split(d, c, p);
        assert(d.subrange(0, p) =~= s.subrange(0, p));
        assert(s.subrange(p, s.len() as int).drop_last() =~= d.subrange(p, d.len() as int));
        assert(s.subrange(p, s.len() as int).last() == s.last());
    }
}

proof fn lemma_count_char_one(s: Seq<char>, c: char, p: int)
    requires
        0 <= p < s.len(),
        s[p] == c,
        forall|k: int| 0 <= k < s.len() && k != p ==> s[k] != c,
    ensures
        count_char(s, c) == 1,
        first_index(s, c) == p,
{
    lemma_count_char_split(s, c, p);
    lemma_count_char_zero(s.subrange(0, p), c);
    assert(forall|k: int| 0 <= k < p ==> s.subrange(0, p)[k] == s[k]);
    let tail = s.subrange(p, s.len() as int);
    lemma_count_char_split(tail, c, 1);
    assert(tail.subrange(0, 1) =~= seq![c]);
    assert(count_char(seq![c], c) == 1) by {
        assert(count_char(Seq::<char>::empty(), c) == 0);
        assert(seq![c].drop_last() =~= Seq::<char>::empty());
    }
    lemma_count_char_zero(tail.subrange(1, tail.len() as int), c);
    assert(forall|k: int| 0 <= k < tail.len() - 1 ==> tail.subrange(1, tail.len() as int)[k] == s[
        p + 1 + k
    ]);
    lemma_first_index(s, c);
}

proof fn lemma_first_index_at(s: Seq<char>, c: char, p: int)
    requires
        0 <= p < s.len(),
        s[p] == c,
        forall|k: int| 0 <= k < p ==> s[k] != c,
    ensures
        first_index(s, c) == p,
        count_char(s, c) > 0,
{
    lemma_first_index(s, c);
    lemma_count_char_zero(s, c);
}

proof fn lemma_count_char_at_least_two(s: Seq<char>, c: char, p: int, q: int)
    requires
        0 <= p < q < s.len(),
        s[p] == c,
        s[q] == c,
    ensures
        count_char(s, c) >= 2,
{
    lemma_count_char_split(s, c, q);
    lemma_count_char_zero(s.subrange(0, q), c);
    assert(s.subrange(0, q)[p] == c);
    lemma_count_char_zero(s.subrange(q, s.len() as int), c);
    assert(s.subrange(q, s.len() as int)[0] == c);
}

/// The index of the first occurrence of `c` in `s` at or after `start`.
fn find_from(s: &str, start: usize, c: char) -> (r: Option<usize>)
    requires
        start <= s@.len(),
    ensures
        match r {
            Some(p) => start <= p < s@.len() && s@[p as int] == c && (forall|k: int|
                start <= k < p ==> s@[k] != c),
            None => forall|k: int| start <= k < s@.len() ==> s@[k] != c,
        },
{
    let n = s.unicode_len();
    let mut j = start;
    while j < n
        invariant
            start <= j <= n,
            n == s@.len(),
            forall|k: int| start <= k < j ==> s@[k] != c,
        decreases n - j,
    {
        if s.get_char(j) == c {
            return Some(j);
        }
        j = j + 1;
    }
    None
}

/// Parse one rule `source=target` or `source=-target` into the source axis
/// code and its mapping entry.
pub fn parse_mapping(input: &str) -> (r: Result<(u16, Mapping), ParseError>)
    ensures
        r == spec_parse_rule(input@),
{
    let n = input.unicode_len();
    let eq_pos = match find_from(input, 0, '=') {
        None => {
            proof {
                lemma_count_char_zero(input@, '=');
            }
            return Err(ParseError::MalformedRule);
        },
        Some(p) => p,
    };
    match find_from(input, eq_pos + 1, '=') {
        Some(q) => {
            proof {
                lemma_count_char_at_least_two(input@, '=', eq_pos as int, q as int);
            }
            return Err(ParseError::MalformedRule);
        },
        None => {},
    }
    proof {
        lemma_count_char_one(input@, '=', eq_pos as int);
    }
    let l = input.substring_char(0, eq_pos);
    let src = match parse_axis_name(l) {
        None => {
            return Err(ParseError::UnknownAxis);
        },
        Some(code) => code,
    };
    let rstr = input.substring_char(eq_pos + 1, n);
    let rn = rstr.unicode_len();
    let dash_pos = match find_from(rstr, 0, '-') {
        None => {
            proof {
                lemma_count_char_zero(rstr@, '-');
            }
            match parse_axis_name(rstr) {
                None => {
                    return Err(ParseError::UnknownAxis);
                },
                Some(t) => {
                    return Ok((src, Mapping::from_abs(t)));
                },
            }
        },
        Some(p) => p,
    };
    match find_from(rstr, dash_pos + 1, '-') {
        Some(q) => {
            proof {
                lemma_count_char_at_least_two(rstr@, '-', dash_pos as int, q as int);
            }
            return Err(ParseError::MalformedTarget);
        },
        None => {},
    }
    proof {
        lemma_count_char_one(rstr@, '-', dash_pos as int);
    }
    if dash_pos == 0 {
        let t = rstr.substring_char(1, rn);
        match parse_axis_name(t) {
            None => Err(ParseError::UnknownAxis),
            Some(code) => Ok((src, Mapping::from_abs_inv(code))),
        }
    } else {
        Err(ParseError::MalformedTarget)
    }
}

/// Parse a whole rule string into the rule set it describes.
///
/// The empty string yields the empty rule set. Otherwise every
/// comma-separated rule must parse; the first failing rule's error is
/// returned, and a later rule for the same source axis overwrites an
/// earlier one.
pub fn parse_mappings(input: &str) -> (r: Result<HashMap<u16, Mapping>, ParseError>)
    ensures
        match (spec_parse_rules(input@), r) {
            (Ok(m), Ok(h)) => h@ == m,
            (Err(e), Err(e2)) => e == e2,
            _ => false,
        },
{
    let n = input.unicode_len();
    let mut map: HashMap<u16, Mapping> = HashMap::new();
    if n == 0 {
        return Ok(map);
    }
    let mut start: usize = 0;
    proof {
        assert(input@.subrange(0, n as int) =~= input@);
    }
    loop
        invariant
            start <= n,
            n == input@.len(),
            n > 0,
            spec_parse_rules_from(input@.subrange(start as int, n as int), map@)
                == spec_parse_rules(input@),
        decreases n - start,
    {
        let ghost rem = input@.subrange(start as int, n as int);
        match find_from(input, start, ',') {
            None => {
                proof {
                    assert(forall|k: int| 0 <= k < rem.len() ==> rem[k] == input@[start + k]);
                    lemma_count_char_zero(rem, ',');
                }
                let tok = input.substring_char(start, n);
                match parse_mapping(tok) {
                    Err(e) => {
                        return Err(e);
                    },
                    Ok((src, m)) => {
                        map.insert(src, m);
                        return Ok(map);
                    },
                }
            },
            Some(p) => {
                proof {
                    assert(forall|k: int| 0 <= k < rem.len() ==> rem[k] == input@[start + k]);
                    assert(rem[p - start] == ',');
                    assert(forall|k: int| 0 <= k < p - start ==> rem[k] != ',');
                    lemma_first_index_at(rem, ',', p - start);
                }
                let tok = input.substring_char(start, p);
                proof {
                    assert(tok@ =~= rem.subrange(0, p - start));
                }
                match parse_mapping(tok) {
                    Err(e) => {
                        return Err(e);
                    },
                    Ok((src, m)) => {
                        map.insert(src, m);
                        proof {
                            assert(input@.subrange(p + 1, n as int) =~= rem.subrange(
                                p - start + 1,
                                rem.len() as int,
                            ));
                        }
                        start = p + 1;
                    },
                }
            },
        }
    }
}

} // verus!
