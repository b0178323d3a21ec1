//! Conditions written as text and evaluated against a state, and a router
//! that picks a target by the conditions that hold.
//!
//! A condition is one of `eq:field=value`, `gt:field>number`,
//! `lt:field<number`, `contains:field:text`, `exists:field`, `fn:name`, or a
//! bare field name, which holds when the field's value is truthy. The
//! numbers in conditions are decimals (digits, with an optional sign and an
//! optional point and fraction); the numbers in states are integers.
use vstd::prelude::*;
use crate::error::LangGraphError;
use crate::json::{JsonValue, JsonModel, is_truthy};
use crate::state::{StateData, state_model};
use crate::text::{
    to_chars, from_chars, starts_with, is_prefix, split_spec, split_chars, contains_seq,
    contains_chars, str_eq, all_digits, digits_value, digit_value, lemma_split_nonempty, dec_string,
};
use crate::engine::tracing::lemma_dec_string;
use vstd::arithmetic::power::pow;

verus! {

/// Whether a digit other than zero occurs in `s`.
pub open spec fn has_nonzero(s: Seq<char>) -> bool {
    exists|i: int| 0 <= i < s.len() && s[i] != '0'
}

/// The number that a text denotes when written in decimal: an optional `-`
/// or `+`, digits, and optionally a point followed by more digits, with at
/// least one digit in all.  It is given as its sign (true when negative),
/// its whole part, and whether a nonzero fraction follows the point.
pub open spec fn parse_decimal_spec(s: Seq<char>) -> Option<(bool, nat, bool)> {
    let signed = s.len() > 0 && (s[0] == '-' || s[0] == '+');
    let body = if signed { s.drop_first() } else { s };
    let parts = split_spec(body, '.');
    let whole = parts[0];
    let frac = if parts.len() == 2 { parts[1] } else { Seq::<char>::empty() };
    if parts.len() <= 2 && all_digits(whole) && all_digits(frac) && (whole.len() > 0 || frac.len() > 0) {
        Some((signed && s[0] == '-', digits_value(whole), has_nonzero(frac)))
    } else {
        None
    }
}

/// Whether the integer `n` lies above the decimal `d`, the number
/// `±(whole + fraction)`: above a positive one exactly when above its
/// whole part; above a negative one with a fraction exactly when at least
/// minus its whole part.
pub open spec fn above(n: int, d: (bool, nat, bool)) -> bool {
    if !d.0 {
        n > d.1
    } else {
        n > -(d.1 as int) - if d.2 { 1int } else { 0int }
    }
}

/// Whether the integer `n` lies below the decimal `d`: below a positive
/// one with a fraction exactly when at most its whole part; below a
/// negative one exactly when below minus its whole part.
pub open spec fn below(n: int, d: (bool, nat, bool)) -> bool {
    if !d.0 {
        n < d.1 + if d.2 { 1int } else { 0int }
    } else {
        n < -(d.1 as int)
    }
}

/// Whether the integer `n` is the decimal `d`: one without a fraction,
/// of the same sign and whole part.
pub open spec fn equals_decimal(n: int, d: (bool, nat, bool)) -> bool {
    !d.2 && n == if d.0 { -(d.1 as int) } else { d.1 as int }
}

/// The value of `field` in the state, if present.
pub open spec fn field_of(m: Map<Seq<char>, JsonModel>, field: Seq<char>) -> Option<JsonModel> {
    if m.contains_key(field) {
        Some(m[field])
    } else {
        None
    }
}

/// `eq:field=value`: the field holds the text `value`, the number it
/// denotes, or the boolean `true`/`false` it names.
pub open spec fn eq_holds(body: Seq<char>, m: Map<Seq<char>, JsonModel>) -> bool {
    let parts = split_spec(body, '=');
    parts.len() == 2 && match field_of(m, parts[0]) {
        Some(JsonModel::Str(s)) => s == parts[1],
        Some(JsonModel::Number(n)) => parse_decimal_spec(parts[1]) matches Some(d) && equals_decimal(n, d),
        Some(JsonModel::Bool(b)) => (parts[1] == "true"@ && b) || (parts[1] == "false"@ && !b),
        _ => false,
    }
}

/// `gt:field>number` (when `greater`) or `lt:field<number`: the field holds
/// a number above (below) the one given.
pub open spec fn bound_holds(body: Seq<char>, sep: char, greater: bool, m: Map<Seq<char>, JsonModel>) -> bool {
    let parts = split_spec(body, sep);
    parts.len() == 2 && match (field_of(m, parts[0]), parse_decimal_spec(parts[1])) {
        (Some(JsonModel::Number(n)), Some(d)) => if greater { above(n, d) } else { below(n, d) },
        _ => false,
    }
}

/// `contains:field:text`: the field is a string holding `text`, or an array
/// with the string `text` as an element.
pub open spec fn contains_holds(body: Seq<char>, m: Map<Seq<char>, JsonModel>) -> bool {
    let parts = split_spec(body, ':');
    parts.len() == 2 && match field_of(m, parts[0]) {
        Some(JsonModel::Str(s)) => contains_seq(s, parts[1]),
        Some(JsonModel::Array(a)) => exists|i: int| 0 <= i < a.len() && a[i] == JsonModel::Str(parts[1]),
        _ => false,
    }
}

/// `fn:name`: `has_errors` (a non-empty `errors` array), `is_complete`
/// (`status` is `complete`), `needs_review` (`confidence` is absent, not a
/// number, or below 0.8); any other name does not hold.
pub open spec fn fn_holds(name: Seq<char>, m: Map<Seq<char>, JsonModel>) -> bool {
    if name == "has_errors"@ {
        field_of(m, "errors"@) matches Some(JsonModel::Array(a)) && a.len() > 0
    } else if name == "is_complete"@ {
        field_of(m, "status"@) matches Some(JsonModel::Str(s)) && s == "complete"@
    } else if name == "needs_review"@ {
        match field_of(m, "confidence"@) {
            Some(JsonModel::Number(c)) => c <= 0,
            _ => true,
        }
    } else {
        false
    }
}

/// Whether a condition holds of a state.
pub open spec fn condition_holds(c: Seq<char>, m: Map<Seq<char>, JsonModel>) -> bool {
    if is_prefix("eq:"@, c) {
        eq_holds(c.skip("eq:"@.len() as int), m)
    } else if is_prefix("gt:"@, c) {
        bound_holds(c.skip("gt:"@.len() as int), '>', true, m)
    } else if is_prefix("lt:"@, c) {
        bound_holds(c.skip("lt:"@.len() as int), '<', false, m)
    } else if is_prefix("contains:"@, c) {
        contains_holds(c.skip("contains:"@.len() as int), m)
    } else if is_prefix("exists:"@, c) {
        m.contains_key(c.skip("exists:"@.len() as int))
    } else if is_prefix("fn:"@, c) {
        fn_holds(c.skip("fn:"@.len() as int), m)
    } else {
        field_of(m, c) matches Some(v) && is_truthy(v)
    }
}

/// The characters of `v` from position `start` on.
pub fn skip_chars(v: &Vec<char>, start: usize) -> (r: Vec<char>)
    requires
        start <= v@.len(),
    ensures
        r@ == v@.skip(start as int),
{
    let mut r: Vec<char> = Vec::new();
    let mut i: usize = start;
    while i < v.len()
        invariant
            start <= i <= v@.len(),
            r@ == v@.subrange(start as int, i as int),
        decreases v@.len() - i,
    {
        r.push(v[i]);
        assert(r@ =~= v@.subrange(start as int, i + 1));
        i = i + 1;
    }
    assert(v@.subrange(start as int, v@.len() as int) =~= v@.skip(start as int));
    r
}

/// The largest whole part that reading a decimal keeps: every 64-bit
/// integer lies below it.
pub open spec fn whole_cap() -> nat {
    0x1_0000_0000_0000_0000
}

/// The value of a text of decimal digits, up to `whole_cap()`; none where
/// a character is not a digit.
fn digits_capped(v: &Vec<char>) -> (r: Option<u128>)
    ensures
        all_digits(v@) ==> r == Some((if digits_value(v@) < whole_cap() { digits_value(v@) } else { whole_cap() }) as u128),
        !all_digits(v@) ==> r is None,
{
    let cap: u128 = 0x1_0000_0000_0000_0000;
    let mut acc: u128 = 0;
    let mut i: usize = 0;
    proof {
        assert(v@.take(0) =~= Seq::<char>::empty());
    }
    while i < v.len()
        invariant
            i <= v@.len(),
            cap == whole_cap(),
            all_digits(v@.take(i as int)),
            acc == if digits_value(v@.take(i as int)) < cap { digits_value(v@.take(i as int)) } else { cap as nat },
        decreases v@.len() - i,
    {
        let c = v[i];
        let ghost t = v@.take(i + 1);
        proof {
            assert(t.drop_last() =~= v@.take(i as int));
            assert(t.last() == c);
        }
        if !('0' <= c && c <= '9') {
            proof {
                assert(digit_value(v@[i as int]) is None);
            }
            return None;
        }
        let d = (c as u32 - '0' as u32) as u128;
        proof {
            assert(digit_value(c) == Some(d as nat));
            assert forall|k: int| 0 <= k < t.len() implies #[trigger] digit_value(t[k]) is Some by {
                if k < i {
                    assert(t[k] == v@.take(i as int)[k]);
                }
            }
        }
        if acc >= cap {
            acc = cap;
        } else {
            let next = acc * 10 + d;
            acc = if next >= cap { cap } else { next };
        }
        assert(digits_value(t) == digits_value(v@.take(i as int)) * 10 + d);
        i = i + 1;
    }
    assert(v@.take(v@.len() as int) =~= v@);
    Some(acc)
}

/// Whether a digit other than zero occurs in `v`.
fn has_nonzero_digit(v: &Vec<char>) -> (b: bool)
    ensures
        b == has_nonzero(v@),
{
    let mut i: usize = 0;
    while i < v.len()
        invariant
            i <= v@.len(),
            forall|k: int| 0 <= k < i ==> v@[k] == '0',
        decreases v@.len() - i,
    {
        if v[i] != '0' {
            return true;
        }
        i = i + 1;
    }
    false
}

/// Reads a decimal as `parse_decimal_spec` describes, its whole part kept
/// up to `whole_cap()`.
pub fn parse_decimal(s: &Vec<char>) -> (r: Option<(bool, u128, bool)>)
    ensures
        match parse_decimal_spec(s@) {
            Some(d) => r == Some((d.0, (if d.1 < whole_cap() { d.1 } else { whole_cap() }) as u128, d.2)),
            None => r is None,
        },
{
    let signed = s.len() > 0 && (s[0] == '-' || s[0] == '+');
    let negative = signed && s[0] == '-';
    let body = if signed { skip_chars(s, 1) } else { skip_chars(s, 0) };
    assert(s@.skip(0) =~= s@);
    let parts = split_chars(body.as_slice(), '.');
    proof {
        lemma_split_nonempty(body@, '.');
    }
    if parts.len() > 2 {
        return None;
    }
    let empty: Vec<char> = Vec::new();
    let frac = if parts.len() == 2 { &parts[1] } else { &empty };
    let whole = &parts[0];
    if whole.len() == 0 && frac.len() == 0 {
        return None;
    }
    let w = match digits_capped(whole) {
        Some(w) => w,
        None => {
            return None;
        },
    };
    match digits_capped(frac) {
        Some(_) => {},
        None => {
            return None;
        },
    }
    Some((negative, w, has_nonzero_digit(frac)))
}

/// Whether `n` lies above, below, or at the decimal read as
/// `(negative, whole, fraction)`, as `above`, `below` and `equals_decimal`
/// say of the decimal before its whole part was capped.
fn compare_decimal(n: i64, negative: bool, whole: u128, fraction: bool, greater: bool, equal: bool, Ghost(w): Ghost<nat>) -> (b: bool)
    requires
        (if w < whole_cap() { w } else { whole_cap() }) == whole,
    ensures
        b == if equal {
            equals_decimal(n as int, (negative, w, fraction))
        } else if greater {
            above(n as int, (negative, w, fraction))
        } else {
            below(n as int, (negative, w, fraction))
        },
{
    let x = n as i128;
    let y = whole as i128;
    let f: i128 = if fraction { 1 } else { 0 };
    if equal {
        !fraction && x == if negative { -y } else { y }
    } else if greater {
        if !negative { x > y } else { x > -y - f }
    } else {
        if !negative { x < y + f } else { x < -y }
    }
}

/// The value that the state holds under the field named by `f`.
fn lookup<'a>(state: &'a StateData, f: &Vec<char>) -> (r: Option<&'a JsonValue>)
    ensures
        match r {
            Some(v) => field_of(state_model(*state), f@) == Some(v@),
            None => field_of(state_model(*state), f@) is None,
        },
{
    let name = from_chars(f.as_slice());
    state.get(name.as_str())
}

/// Evaluates conditions against states.
pub struct ConditionEvaluator;

impl ConditionEvaluator {
    /// Evaluates `eq:` bodies.
    fn evaluate_equality(body: &Vec<char>, state: &StateData) -> (r: bool)
        ensures
            r == eq_holds(body@, state_model(*state)),
    {
        let parts = split_chars(body.as_slice(), '=');
        if parts.len() != 2 {
            return false;
        }
        let expected = &parts[1];
        let ghost sp = split_spec(body@, '=');
        assert(expected@ == sp[1] && parts[0]@ == sp[0]);
        match lookup(state, &parts[0]) {
            Some(JsonValue::String(s)) => {
                let e = from_chars(expected.as_slice());
                assert(field_of(state_model(*state), sp[0]) == Some(JsonModel::Str(s@)));
                let res = str_eq(s.as_str(), e.as_str());
                assert(res == (s@ == sp[1]));
                assert(eq_holds(body@, state_model(*state)) == (s@ == sp[1]));
                res
            },
            Some(JsonValue::Number(n)) => {
                assert(field_of(state_model(*state), sp[0]) == Some(JsonModel::Number(*n as int)));
                match parse_decimal(expected) {
                    Some((neg, w, f)) => {
                        let ghost d = parse_decimal_spec(sp[1]).unwrap();
                        assert(d == (neg, d.1, f));
                        compare_decimal(*n, neg, w, f, false, true, Ghost(d.1))
                    },
                    None => false,
                }
            },
            Some(JsonValue::Bool(b)) => {
                proof {
                    reveal_strlit("true");
                    reveal_strlit("false");
                }
                assert(field_of(state_model(*state), sp[0]) == Some(JsonModel::Bool(*b)));
                let e = from_chars(expected.as_slice());
                if str_eq(e.as_str(), "true") {
                    *b
                } else if str_eq(e.as_str(), "false") {
                    !*b
                } else {
                    false
                }
            },
            _ => false,
        }
    }

    /// Evaluates `gt:` and `lt:` bodies.
    fn evaluate_comparison(body: &Vec<char>, sep: char, greater: bool, state: &StateData) -> (r: bool)
        ensures
            r == bound_holds(body@, sep, greater, state_model(*state)),
    {
        let parts = split_chars(body.as_slice(), sep);
        if parts.len() != 2 {
            return false;
        }
        let ghost sp = split_spec(body@, sep);
        assert(parts[0]@ == sp[0] && parts[1]@ == sp[1]);
        match (lookup(state, &parts[0]), parse_decimal(&parts[1])) {
            (Some(JsonValue::Number(n)), Some((neg, w, f))) => {
                let ghost d = parse_decimal_spec(sp[1]).unwrap();
                assert(d == (neg, d.1, f));
                compare_decimal(*n, neg, w, f, greater, false, Ghost(d.1))
            },
            _ => false,
        }
    }

    /// Evaluates `gt:` bodies.
    pub fn evaluate_greater_than(body: &Vec<char>, state: &StateData) -> (r: bool)
        ensures
            r == bound_holds(body@, '>', true, state_model(*state)),
    {
        Self::evaluate_comparison(body, '>', true, state)
    }

    /// Evaluates `lt:` bodies.
    pub fn evaluate_less_than(body: &Vec<char>, state: &StateData) -> (r: bool)
        ensures
            r == bound_holds(body@, '<', false, state_model(*state)),
    {
        Self::evaluate_comparison(body, '<', false, state)
    }

    /// Evaluates `contains:` bodies.
    fn evaluate_contains(body: &Vec<char>, state: &StateData) -> (r: bool)
        ensures
            r == contains_holds(body@, state_model(*state)),
    {
        let parts = split_chars(body.as_slice(), ':');
        if parts.len() != 2 {
            return false;
        }
        let search = &parts[1];
        match lookup(state, &parts[0]) {
            Some(JsonValue::String(s)) => {
                let sc = to_chars(s.as_str());
                contains_chars(sc.as_slice(), search.as_slice())
            },
            Some(JsonValue::Array(a)) => {
                proof {
                    crate::json::lemma_array_model(*a);
                    assert(field_of(state_model(*state), split_spec(body@, ':')[0]) == Some(JsonModel::Array(crate::json::models(a@))));
                    assert(search@ == split_spec(body@, ':')[1]);
                }
                let target = from_chars(search.as_slice());
                let mut i: usize = 0;
                while i < a.len()
                    invariant
                        i <= a@.len(),
                        target@ == search@,
                        split_spec(body@, ':').len() == 2,
                        search@ == split_spec(body@, ':')[1],
                        field_of(state_model(*state), split_spec(body@, ':')[0]) == Some(JsonModel::Array(crate::json::models(a@))),
                        forall|k: int| 0 <= k < i ==> a@[k]@ != JsonModel::Str(search@),
                    decreases a@.len() - i,
                {
                    match &a[i] {
                        JsonValue::String(x) => {
                            if str_eq(x.as_str(), target.as_str()) {
                                assert(crate::json::models(a@)[i as int] == JsonModel::Str(search@));
                                assert(exists|k: int| 0 <= k < crate::json::models(a@).len() && crate::json::models(a@)[k] == JsonModel::Str(search@));
                                return true;
                            }
                        },
                        _ => {},
                    }
                    i = i + 1;
                }
                proof {
                    assert forall|k: int| 0 <= k < crate::json::models(a@).len() implies crate::json::models(a@)[k]
                        != JsonModel::Str(search@) by {
                        assert(crate::json::models(a@)[k] == a@[k]@);
                    }
                }
                false
            },
            _ => false,
        }
    }

    /// Evaluates `fn:` names.
    fn evaluate_function(name: &Vec<char>, state: &StateData) -> (r: bool)
        ensures
            r == fn_holds(name@, state_model(*state)),
    {
        let n = from_chars(name.as_slice());
        if str_eq(n.as_str(), "has_errors") {
            let f = to_chars("errors");
            match lookup(state, &f) {
                Some(JsonValue::Array(a)) => {
                    proof {
                        crate::json::lemma_array_model(*a);
                    }
                    a.len() > 0
                },
                _ => false,
            }
        } else if str_eq(n.as_str(), "is_complete") {
            let f = to_chars("status");
            match lookup(state, &f) {
                Some(JsonValue::String(s)) => str_eq(s.as_str(), "complete"),
                _ => false,
            }
        } else if str_eq(n.as_str(), "needs_review") {
            let f = to_chars("confidence");
            match lookup(state, &f) {
                Some(JsonValue::Number(c)) => *c <= 0,
                _ => true,
            }
        } else {
            false
        }
    }

    /// Evaluates a bare field name: whether its value is truthy.
    fn evaluate_truthy(field: &Vec<char>, state: &StateData) -> (r: bool)
        ensures
            r == (field_of(state_model(*state), field@) matches Some(v) && is_truthy(v)),
    {
        match lookup(state, field) {
            Some(v) => v.truthy(),
            None => false,
        }
    }

    /// Whether the condition holds of the state.
    pub fn evaluate(condition: &str, state: &StateData) -> (r: Result<bool, LangGraphError>)
        ensures
            r matches Ok(b) && b == condition_holds(condition@, state_model(*state)),
    {
        let c = to_chars(condition);
        let p_eq = to_chars("eq:");
        let p_gt = to_chars("gt:");
        let p_lt = to_chars("lt:");
        let p_contains = to_chars("contains:");
        let p_exists = to_chars("exists:");
        let p_fn = to_chars("fn:");
        let b = if starts_with(c.as_slice(), p_eq.as_slice()) {
            Self::evaluate_equality(&skip_chars(&c, p_eq.len()), state)
        } else if starts_with(c.as_slice(), p_gt.as_slice()) {
            Self::evaluate_greater_than(&skip_chars(&c, p_gt.len()), state)
        } else if starts_with(c.as_slice(), p_lt.as_slice()) {
            Self::evaluate_less_than(&skip_chars(&c, p_lt.len()), state)
        } else if starts_with(c.as_slice(), p_contains.as_slice()) {
            Self::evaluate_contains(&skip_chars(&c, p_contains.len()), state)
        } else if starts_with(c.as_slice(), p_exists.as_slice()) {
            let f = skip_chars(&c, p_exists.len());
            let name = from_chars(f.as_slice());
            state.contains_key(name.as_str())
        } else if starts_with(c.as_slice(), p_fn.as_slice()) {
            Self::evaluate_function(&skip_chars(&c, p_fn.len()), state)
        } else {
            Self::evaluate_truthy(&c, state)
        };
        Ok(b)
    }

    /// Combines conditions with `AND`/`&&` (all hold), `OR`/`||` (one
    /// holds) or `XOR` (exactly one holds); any other operator gives false.
    pub fn evaluate_complex(conditions: &[String], operator: &str, state: &StateData) -> (r: Result<bool, LangGraphError>)
        ensures
            r matches Ok(b) && b == complex_holds(
                strings_of(conditions@),
                operator@,
                state_model(*state),
            ),
    {
        if str_eq(operator, "AND") || str_eq(operator, "&&") {
            let mut i: usize = 0;
            while i < conditions.len()
                invariant
                    i <= conditions@.len(),
                    operator@ == "AND"@ || operator@ == "&&"@,
                    forall|k: int| 0 <= k < i ==> condition_holds(#[trigger] conditions@[k]@, state_model(*state)),
                decreases conditions@.len() - i,
            {
                let h = Self::evaluate(conditions[i].as_str(), state);
                match h {
                    Ok(true) => {},
                    _ => {
                        assert(strings_of(conditions@)[i as int] == conditions@[i as int]@);
                        assert(!condition_holds(strings_of(conditions@)[i as int], state_model(*state)));
                        assert(!(forall|k: int| 0 <= k < strings_of(conditions@).len() ==> condition_holds(#[trigger] strings_of(conditions@)[k], state_model(*state))));
                        return Ok(false);
                    },
                }
                i = i + 1;
            }
            assert forall|k: int| 0 <= k < strings_of(conditions@).len() implies condition_holds(
                #[trigger] strings_of(conditions@)[k],
                state_model(*state),
            ) by {
                assert(strings_of(conditions@)[k] == conditions@[k]@);
            }
            Ok(true)
        } else if str_eq(operator, "OR") || str_eq(operator, "||") {
            let mut i: usize = 0;
            while i < conditions.len()
                invariant
                    i <= conditions@.len(),
                    !(operator@ == "AND"@ || operator@ == "&&"@),
                    operator@ == "OR"@ || operator@ == "||"@,
                    forall|k: int| 0 <= k < i ==> !condition_holds(#[trigger] conditions@[k]@, state_model(*state)),
                decreases conditions@.len() - i,
            {
                let h = Self::evaluate(conditions[i].as_str(), state);
                match h {
                    Ok(true) => {
                        assert(strings_of(conditions@)[i as int] == conditions@[i as int]@);
                        assert(condition_holds(strings_of(conditions@)[i as int], state_model(*state)));
                        return Ok(true);
                    },
                    _ => {},
                }
                i = i + 1;
            }
            assert forall|k: int| 0 <= k < strings_of(conditions@).len() implies !condition_holds(
                #[trigger] strings_of(conditions@)[k],
                state_model(*state),
            ) by {
                assert(strings_of(conditions@)[k] == conditions@[k]@);
            }
            Ok(false)
        } else if str_eq(operator, "XOR") {
            let mut count: usize = 0;
            let mut i: usize = 0;
            while i < conditions.len()
                invariant
                    i <= conditions@.len(),
                    count == holding_count(strings_of(conditions@).take(i as int), state_model(*state)),
                    count <= i,
                decreases conditions@.len() - i,
            {
                let holds = match Self::evaluate(conditions[i].as_str(), state) {
                    Ok(b) => b,
                    Err(_) => false,
                };
                proof {
                    assert(strings_of(conditions@).take(i + 1).drop_last() =~= strings_of(conditions@).take(i as int));
                    assert(strings_of(conditions@).take(i + 1).last() == conditions@[i as int]@);
                }
                if holds {
                    count = count + 1;
                }
                i = i + 1;
            }
            assert(strings_of(conditions@).take(conditions@.len() as int) =~= strings_of(conditions@));
            Ok(count == 1)
        } else {
            Ok(false)
        }
    }
}

/// The characters of each string.
pub open spec fn strings_of(v: Seq<String>) -> Seq<Seq<char>> {
    Seq::new(v.len(), |i: int| v[i]@)
}

/// How many of the conditions hold.
pub open spec fn holding_count(cs: Seq<Seq<char>>, m: Map<Seq<char>, JsonModel>) -> nat
    decreases cs.len(),
{
    if cs.len() == 0 {
        0
    } else {
        holding_count(cs.drop_last(), m) + if condition_holds(cs.last(), m) { 1nat } else { 0nat }
    }
}

/// What combining conditions with an operator gives.
pub open spec fn complex_holds(cs: Seq<Seq<char>>, op: Seq<char>, m: Map<Seq<char>, JsonModel>) -> bool {
    if op == "AND"@ || op == "&&"@ {
        forall|k: int| 0 <= k < cs.len() ==> condition_holds(#[trigger] cs[k], m)
    } else if op == "OR"@ || op == "||"@ {
        exists|k: int| 0 <= k < cs.len() && condition_holds(#[trigger] cs[k], m)
    } else if op == "XOR"@ {
        holding_count(cs, m) == 1
    } else {
        false
    }
}

/// A route: a condition, its target and its priority.
#[derive(Debug, Clone)]
pub struct ConditionalRoute {
    /// The condition under which the route is taken
    pub condition: String,
    /// The node it leads to
    pub target: String,
    /// Higher priorities win
    pub priority: i32,
}

/// Router for selecting next nodes based on conditions.
pub struct ConditionalRouter {
    routes: Vec<ConditionalRoute>,
}

/// The position of the route that `route` picks among `rs`: of those whose
/// condition holds, the first with the highest priority; -1 when none holds.
pub open spec fn best_route(rs: Seq<ConditionalRoute>, m: Map<Seq<char>, JsonModel>) -> int
    decreases rs.len(),
{
    if rs.len() == 0 {
        -1
    } else {
        let b = best_route(rs.drop_last(), m);
        let last = rs.last();
        if condition_holds(last.condition@, m) && (b < 0 || rs[b].priority < last.priority) {
            rs.len() - 1
        } else {
            b
        }
    }
}

/// The targets of the routes whose condition holds, in order.
pub open spec fn matching_targets(rs: Seq<ConditionalRoute>, m: Map<Seq<char>, JsonModel>) -> Seq<Seq<char>>
    decreases rs.len(),
{
    if rs.len() == 0 {
        Seq::empty()
    } else {
        let t = matching_targets(rs.drop_last(), m);
        if condition_holds(rs.last().condition@, m) {
            t.push(rs.last().target@)
        } else {
            t
        }
    }
}

/// The route picked is one whose condition holds, no such route has a
/// higher priority, and every earlier such route has a lower one.
pub proof fn lemma_best_route(rs: Seq<ConditionalRoute>, m: Map<Seq<char>, JsonModel>)
    ensures
        -1 <= best_route(rs, m) < rs.len(),
        best_route(rs, m) < 0 <==> forall|k: int| 0 <= k < rs.len() ==> !condition_holds(#[trigger] rs[k].condition@, m),
        best_route(rs, m) >= 0 ==> condition_holds(rs[best_route(rs, m)].condition@, m),
        best_route(rs, m) >= 0 ==> forall|k: int|
            0 <= k < rs.len() && condition_holds(#[trigger] rs[k].condition@, m) ==> rs[k].priority
                <= rs[best_route(rs, m)].priority,
        best_route(rs, m) >= 0 ==> forall|k: int|
            0 <= k < best_route(rs, m) && condition_holds(#[trigger] rs[k].condition@, m) ==> rs[k].priority
                < rs[best_route(rs, m)].priority,
    decreases rs.len(),
{
    if rs.len() > 0 {
        let d = rs.drop_last();
        lemma_best_route(d, m);
        assert forall|k: int| 0 <= k < d.len() implies #[trigger] d[k] == rs[k] by {}
        let last = rs.len() - 1;
        assert(rs[last] == rs.last());
        let b = best_route(rs, m);
        let bd = best_route(d, m);
        if b < 0 {
            assert forall|k: int| 0 <= k < rs.len() implies !condition_holds(#[trigger] rs[k].condition@, m) by {
                if k < last {
                    assert(d[k] == rs[k]);
                }
            }
        } else {
            assert forall|k: int| 0 <= k < rs.len() && condition_holds(#[trigger] rs[k].condition@, m) implies rs[k].priority
                <= rs[b].priority by {
                if k < last {
                    assert(d[k] == rs[k]);
                    assert(condition_holds(d[k].condition@, m));
                }
                if bd >= 0 {
                    assert(d[bd] == rs[bd]);
                }
            }
            assert forall|k: int| 0 <= k < b && condition_holds(#[trigger] rs[k].condition@, m) implies rs[k].priority
                < rs[b].priority by {
                assert(d[k] == rs[k]);
                assert(condition_holds(d[k].condition@, m));
                if bd >= 0 {
                    assert(d[bd] == rs[bd]);
                }
            }
        }
    }
}

impl ConditionalRouter {
    /// The routes, in the order they were added.
    pub closed spec fn routes_view(&self) -> Seq<ConditionalRoute> {
        self.routes@
    }

    /// A router without routes.
    pub fn new() -> (r: ConditionalRouter)
        ensures
            r.routes_view().len() == 0,
    {
        ConditionalRouter { routes: Vec::new() }
    }

    /// Adds a route after the others.
    pub fn add_route(&mut self, condition: String, target: String, priority: i32)
        ensures
            final(self).routes_view() == old(self).routes_view().push(
                ConditionalRoute { condition, target, priority },
            ),
    {
        self.routes.push(ConditionalRoute { condition, target, priority });
    }

    /// The target of the first route with the highest priority among those
    /// whose condition holds; none when no condition holds.
    pub fn route(&self, state: &StateData) -> (r: Result<Option<String>, LangGraphError>)
        ensures
            best_route(self.routes_view(), state_model(*state)) < 0 ==> r matches Ok(None),
            best_route(self.routes_view(), state_model(*state)) >= 0 ==> (r matches Ok(Some(t)) && t@
                == self.routes_view()[best_route(self.routes_view(), state_model(*state))].target@),
    {
        let ghost m = state_model(*state);
        let mut best: Option<usize> = None;
        let mut i: usize = 0;
        while i < self.routes.len()
            invariant
                i <= self.routes@.len(),
                m == state_model(*state),
                match best {
                    Some(b) => b < i && best_route(self.routes@.take(i as int), m) == b,
                    None => best_route(self.routes@.take(i as int), m) < 0,
                },
            decreases self.routes@.len() - i,
        {
            let route = &self.routes[i];
            let holds = match ConditionEvaluator::evaluate(route.condition.as_str(), state) {
                Ok(b) => b,
                Err(_) => false,
            };
            proof {
                let t = self.routes@.take(i + 1);
                assert(t.drop_last() =~= self.routes@.take(i as int));
                assert(t.last() == self.routes@[i as int]);
                match best {
                    Some(b) => {
                        assert(t[b as int] == self.routes@[b as int]);
                    },
                    None => {},
                }
            }
            if holds {
                match best {
                    Some(b) => {
                        if self.routes[b].priority < route.priority {
                            best = Some(i);
                        }
                    },
                    None => {
                        best = Some(i);
                    },
                }
            }
            i = i + 1;
        }
        assert(self.routes@.take(self.routes@.len() as int) =~= self.routes@);
        match best {
            Some(b) => Ok(Some(crate::json::copy_string(&self.routes[b].target))),
            None => Ok(None),
        }
    }

    /// The targets of all routes whose condition holds, in order.
    pub fn route_all(&self, state: &StateData) -> (r: Result<Vec<String>, LangGraphError>)
        ensures
            r matches Ok(v) && strings_of(v@) == matching_targets(self.routes_view(), state_model(*state)),
    {
        let mut targets: Vec<String> = Vec::new();
        let mut i: usize = 0;
        while i < self.routes.len()
            invariant
                i <= self.routes@.len(),
                strings_of(targets@) == matching_targets(self.routes@.take(i as int), state_model(*state)),
            decreases self.routes@.len() - i,
        {
            let route = &self.routes[i];
            let holds = match ConditionEvaluator::evaluate(route.condition.as_str(), state) {
                Ok(b) => b,
                Err(_) => false,
            };
            proof {
                let t = self.routes@.take(i + 1);
                assert(t.drop_last() =~= self.routes@.take(i as int));
                assert(t.last() == self.routes@[i as int]);
            }
            if holds {
                let ghost before = targets@;
                targets.push(crate::json::copy_string(&route.target));
                assert(strings_of(targets@) =~= strings_of(before).push(route.target@));
            }
            i = i + 1;
        }
        assert(self.routes@.take(self.routes@.len() as int) =~= self.routes@);
        Ok(targets)
    }
}


/// The decimal notation of an integer: a `-` before the digits of a
/// negative one.
pub open spec fn int_text(t: int) -> Seq<char> {
    if t < 0 {
        "-"@ + dec_string((-t) as nat)
    } else {
        dec_string(t as nat)
    }
}

/// A text without the separator is one part.
proof fn lemma_split_single(s: Seq<char>, sep: char)
    requires
        forall|i: int| 0 <= i < s.len() ==> s[i] != sep,
    ensures
        split_spec(s, sep) == seq![s],
    decreases s.len(),
{
    if s.len() > 0 {
        lemma_split_single(s.drop_last(), sep);
        assert(s.drop_last().push(s.last()) =~= s);
        assert(seq![s.drop_last()].update(0, s.drop_last().push(s.last())) =~= seq![s]);
    } else {
        assert(s =~= Seq::<char>::empty());
    }
}

/// Two texts without the separator, joined by it, split into the two.
proof fn lemma_split_two(a: Seq<char>, b: Seq<char>, sep: char)
    requires
        forall|i: int| 0 <= i < a.len() ==> a[i] != sep,
        forall|i: int| 0 <= i < b.len() ==> b[i] != sep,
    ensures
        split_spec(a + seq![sep] + b, sep) == seq![a, b],
    decreases b.len(),
{
    let s = a + seq![sep] + b;
    if b.len() == 0 {
        assert(s.drop_last() =~= a);
        assert(s.last() == sep);
        lemma_split_single(a, sep);
        assert(b =~= Seq::<char>::empty());
        assert(seq![a].push(Seq::<char>::empty()) =~= seq![a, b]);
    } else {
        lemma_split_two(a, b.drop_last(), sep);
        assert(s.drop_last() =~= a + seq![sep] + b.drop_last());
        assert(s.last() == b.last());
        assert(b.drop_last().push(b.last()) =~= b);
        assert(seq![a, b.drop_last()].update(1, b.drop_last().push(b.last())) =~= seq![a, b]);
    }
}

/// The decimal notation of an integer reads back as that integer, with no
/// fraction.
proof fn lemma_int_text_reads(t: int)
    ensures
        parse_decimal_spec(int_text(t)) == Some((t < 0, (if t < 0 { -t } else { t }) as nat, false)),
        forall|i: int| 0 <= i < int_text(t).len() ==> int_text(t)[i] != '>' && int_text(t)[i] != '<'
            && int_text(t)[i] != '=',
{
    reveal_strlit("-");
    let k: nat = (if t < 0 { -t } else { t }) as nat;
    let d = dec_string(k);
    lemma_dec_string(k);
    assert forall|i: int| 0 <= i < d.len() implies d[i] != '.' && d[i] != '>' && d[i] != '<' && d[i] != '='
        && d[i] != '-' && '0' <= d[i] <= '9' by {
        assert(digit_value(d[i]) is Some);
    }
    lemma_split_single(d, '.');
    let e = Seq::<char>::empty();
    assert(all_digits(e));
    assert(!has_nonzero(e));
    let s = int_text(t);
    if t < 0 {
        assert(s[0] == '-');
        assert(s.drop_first() =~= d);
        assert forall|i: int| 0 <= i < s.len() implies s[i] != '>' && s[i] != '<' && s[i] != '=' by {
            if i > 0 {
                assert(s[i] == d[i - 1]);
            }
        }
    } else {
        assert(s == d);
        assert(s[0] != '-' && s[0] != '+');
    }
}

/// Conditions against an integer threshold compare the field's integer
/// with it: `gt:` holds exactly when the value is above it (not when
/// equal), `lt:` exactly when below, `eq:` exactly when equal.
pub proof fn lemma_integer_thresholds(field: Seq<char>, n: int, t: int, m: Map<Seq<char>, JsonModel>)
    requires
        m.contains_key(field),
        m[field] == JsonModel::Number(n),
        forall|i: int| 0 <= i < field.len() ==> field[i] != '>' && field[i] != '<' && field[i] != '=',
    ensures
        condition_holds("gt:"@ + field + ">"@ + int_text(t), m) <==> n > t,
        condition_holds("lt:"@ + field + "<"@ + int_text(t), m) <==> n < t,
        condition_holds("eq:"@ + field + "="@ + int_text(t), m) <==> n == t,
{
    reveal_strlit("gt:");
    reveal_strlit("lt:");
    reveal_strlit("eq:");
    reveal_strlit(">");
    reveal_strlit("<");
    reveal_strlit("=");
    lemma_int_text_reads(t);
    let x = int_text(t);
    lemma_split_two(field, x, '>');
    lemma_split_two(field, x, '<');
    lemma_split_two(field, x, '=');
    let g = "gt:"@ + field + ">"@ + x;
    let l = "lt:"@ + field + "<"@ + x;
    let q = "eq:"@ + field + "="@ + x;
    assert(g.skip(3) =~= field + seq!['>'] + x);
    assert(l.skip(3) =~= field + seq!['<'] + x);
    assert(q.skip(3) =~= field + seq!['='] + x);
    assert(g.take(3) =~= "gt:"@);
    assert(l.take(3) =~= "lt:"@);
    assert(q.take(3) =~= "eq:"@);
    assert(g[0] == 'g' && l[0] == 'l');
    assert(!is_prefix("eq:"@, g));
    assert(!is_prefix("eq:"@, l) && !is_prefix("gt:"@, l));
    assert(field_of(m, field) == Some(JsonModel::Number(n)));
}

/// A text of decimal digits denotes less than ten to the power of its
/// length, and more than zero exactly when one of its digits is not zero.
proof fn lemma_digits_bound(s: Seq<char>)
    requires
        forall|i: int| 0 <= i < s.len() ==> '0' <= #[trigger] s[i] <= '9',
    ensures
        all_digits(s),
        0 <= digits_value(s) < pow(10, s.len()),
        (digits_value(s) > 0) <==> has_nonzero(s),
    decreases s.len(),
{
    reveal(pow);
    assert forall|i: int| 0 <= i < s.len() implies #[trigger] digit_value(s[i]) is Some by {
        assert('0' <= s[i] <= '9');
    }
    if s.len() > 0 {
        let p = s.drop_last();
        assert forall|i: int| 0 <= i < p.len() implies '0' <= #[trigger] p[i] <= '9' by {
            assert(p[i] == s[i]);
        }
        lemma_digits_bound(p);
        let c = s.last();
        assert('0' <= c <= '9');
        let d: int = c as int - '0' as int;
        assert(digit_value(c) == Some(d as nat));
        assert(0 <= d <= 9);
        assert(digits_value(s) == digits_value(p) * 10 + d);
        assert(pow(10, s.len()) == 10 * pow(10, p.len()));
        let pp = pow(10, p.len());
        let dp: int = digits_value(p) as int;
        assert(dp * 10 + d < 10 * pp) by (nonlinear_arith)
            requires
                0 <= dp < pp,
                0 <= d <= 9,
        ;
        assert(has_nonzero(s) <==> (has_nonzero(p) || c != '0')) by {
            if has_nonzero(s) {
                let i = choose|i: int| 0 <= i < s.len() && s[i] != '0';
                if i < p.len() {
                    assert(p[i] == s[i]);
                }
            }
            if has_nonzero(p) {
                let i = choose|i: int| 0 <= i < p.len() && p[i] != '0';
                assert(s[i] == p[i]);
            }
            if c != '0' {
                assert(s[s.len() - 1] != '0');
            }
        }
        assert((d > 0) <==> (c != '0'));
    } else {
        assert(!has_nonzero(s));
    }
}

/// How `n` compares with `±(k + f / p)`, scaled by `p`, for a fraction
/// `0 <= f < p`.
proof fn lemma_scaled_compare(n: int, k: int, f: int, p: int)
    requires
        p > 0,
        0 <= f < p,
    ensures
        (n * p > k * p + f) <==> n > k,
        (n * p < k * p + f) <==> n < k + if f > 0 { 1int } else { 0int },
        (n * p == k * p + f) <==> (f == 0 && n == k),
        (n * p > -(k * p + f)) <==> n > -k - if f > 0 { 1int } else { 0int },
        (n * p < -(k * p + f)) <==> n < -k,
        (n * p == -(k * p + f)) <==> (f == 0 && n == -k),
{
    assert(n * p - k * p == (n - k) * p) by (nonlinear_arith);
    assert(n * p + k * p == (n + k) * p) by (nonlinear_arith);
    assert((n - k) >= 1 ==> (n - k) * p >= p) by (nonlinear_arith)
        requires
            p > 0,
    ;
    assert((n - k) <= 0 ==> (n - k) * p <= 0) by (nonlinear_arith)
        requires
            p > 0,
    ;
    assert((n - k) <= -1 ==> (n - k) * p <= -p) by (nonlinear_arith)
        requires
            p > 0,
    ;
    assert((n - k) == 0 ==> (n - k) * p == 0);
    assert((n + k) >= 1 ==> (n + k) * p >= p) by (nonlinear_arith)
        requires
            p > 0,
    ;
    assert((n + k) <= -1 ==> (n + k) * p <= -p) by (nonlinear_arith)
        requires
            p > 0,
    ;
    assert((n + k) == 0 ==> (n + k) * p == 0);
}

/// The text `±whole.fraction` of a decimal threshold.
pub open spec fn decimal_text(negative: bool, whole: nat, fraction: Seq<char>) -> Seq<char> {
    (if negative { "-"@ } else { Seq::<char>::empty() }) + dec_string(whole) + "."@ + fraction
}

/// The number `±whole.fraction` times ten to the number of fraction digits.
pub open spec fn scaled_value(negative: bool, whole: nat, fraction: Seq<char>) -> int {
    let v = whole * pow(10, fraction.len()) + digits_value(fraction);
    if negative {
        -v
    } else {
        v
    }
}

/// Conditions against a decimal threshold `±whole.fraction` compare the
/// field's integer with the number the threshold denotes: both scaled by
/// ten to the number of fraction digits, `gt:` holds exactly when the
/// integer is above it, `lt:` exactly when below, `eq:` exactly when equal.
pub proof fn lemma_decimal_thresholds(
    field: Seq<char>,
    n: int,
    negative: bool,
    whole: nat,
    fraction: Seq<char>,
    m: Map<Seq<char>, JsonModel>,
)
    requires
        m.contains_key(field),
        m[field] == JsonModel::Number(n),
        forall|i: int| 0 <= i < field.len() ==> field[i] != '>' && field[i] != '<' && field[i] != '=',
        forall|i: int| 0 <= i < fraction.len() ==> '0' <= #[trigger] fraction[i] <= '9',
    ensures
        condition_holds("gt:"@ + field + ">"@ + decimal_text(negative, whole, fraction), m) <==> n * pow(
            10,
            fraction.len(),
        ) > scaled_value(negative, whole, fraction),
        condition_holds("lt:"@ + field + "<"@ + decimal_text(negative, whole, fraction), m) <==> n * pow(
            10,
            fraction.len(),
        ) < scaled_value(negative, whole, fraction),
        condition_holds("eq:"@ + field + "="@ + decimal_text(negative, whole, fraction), m) <==> n * pow(
            10,
            fraction.len(),
        ) == scaled_value(negative, whole, fraction),
{
    reveal_strlit("gt:");
    reveal_strlit("lt:");
    reveal_strlit("eq:");
    reveal_strlit(">");
    reveal_strlit("<");
    reveal_strlit("=");
    reveal_strlit("-");
    reveal_strlit(".");
    lemma_digits_bound(fraction);
    lemma_dec_string(whole);
    let d = dec_string(whole);
    assert forall|i: int| 0 <= i < d.len() implies '0' <= #[trigger] d[i] <= '9' by {
        assert(digit_value(d[i]) is Some);
    }
    lemma_split_two(d, fraction, '.');
    let body = d + seq!['.'] + fraction;
    let x = decimal_text(negative, whole, fraction);
    if negative {
        assert(x[0] == '-');
        assert(x.drop_first() =~= body);
    } else {
        assert(x =~= body);
        assert(x[0] == d[0]);
    }
    assert(all_digits(d));
    assert(parse_decimal_spec(x) == Some((negative, whole, has_nonzero(fraction))));
    assert forall|i: int| 0 <= i < x.len() implies x[i] != '>' && x[i] != '<' && x[i] != '=' by {
        if negative {
            if i > 0 {
                assert(x[i] == body[i - 1]);
            }
        } else {
            assert(x[i] == body[i]);
        }
    }
    lemma_split_two(field, x, '>');
    lemma_split_two(field, x, '<');
    lemma_split_two(field, x, '=');
    let g = "gt:"@ + field + ">"@ + x;
    let l = "lt:"@ + field + "<"@ + x;
    let q = "eq:"@ + field + "="@ + x;
    assert(g.skip(3) =~= field + seq!['>'] + x);
    assert(l.skip(3) =~= field + seq!['<'] + x);
    assert(q.skip(3) =~= field + seq!['='] + x);
    assert(g.take(3) =~= "gt:"@);
    assert(l.take(3) =~= "lt:"@);
    assert(q.take(3) =~= "eq:"@);
    assert(g[0] == 'g' && l[0] == 'l');
    assert(!is_prefix("eq:"@, g));
    assert(!is_prefix("eq:"@, l) && !is_prefix("gt:"@, l));
    assert(field_of(m, field) == Some(JsonModel::Number(n)));
    lemma_scaled_compare(n, whole as int, digits_value(fraction) as int, pow(10, fraction.len()));
}

} // verus!
