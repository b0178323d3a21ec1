//! Validation rules for state updates, allowed transitions between nodes,
//! and sanitisation of values.
use vstd::prelude::*;
use vstd::utf8::encode_utf8;
use crate::json::{JsonValue, JsonModel, models, entry_models, lemma_array_model, lemma_object_model,
    json_text, json_text_of, copy_string};
use crate::keyed_map::StrMap;
use crate::state::{StateData, state_model};
use crate::text::{concat_str, push_str, push_char, decimal_string, dec_string, str_eq, to_chars, from_chars};
use crate::graph::strings_view;

verus! {

broadcast use {vstd::std_specs::vec::axiom_vec_decreases_to_view, vstd::std_specs::vec::axiom_vec_index_decreases};

/// Errors of state validation.
#[derive(Debug)]
pub enum ValidationError {
    TypeMismatch { expected: String, actual: String },
    OutOfRange { value: String, min: String, max: String },
    PatternMismatch { value: String, pattern: String },
    RequiredFieldMissing { field: String },
    UnauthorizedField { field: String },
    LengthExceeded { length: usize, max: usize },
    InvalidEnumValue { value: String },
    InvalidTransition { from: String, to: String },
    RuleFailed { rule: String },
}

/// Kinds of JSON values.
#[derive(Debug, Clone, Copy, PartialEq, Eq, Structural)]
pub enum ValueType {
    String,
    Number,
    Boolean,
    Array,
    Object,
    Null,
}

/// One check on a field's value.
#[derive(Debug)]
pub enum ValidationType {
    /// The value has this kind.
    Type(ValueType),
    /// A string value matches this regular expression.
    Pattern(String),
    /// A number lies within these bounds.
    Range { min: Option<i64>, max: Option<i64> },
    /// A string's bytes or an array's items number within these bounds.
    Length { min: Option<usize>, max: Option<usize> },
    /// The value is one of these.
    Enum(Vec<JsonValue>),
    /// The field must be present.
    Required,
    /// A named check done elsewhere.
    Custom(String),
}

/// The checks for one field.
#[derive(Debug)]
pub struct ValidationRule {
    pub field: String,
    pub validations: Vec<ValidationType>,
    pub sanitize: bool,
    pub allow_field: bool,
}

/// The kind of a value.
pub open spec fn kind_of(v: JsonModel) -> ValueType {
    match v {
        JsonModel::Str(_) => ValueType::String,
        JsonModel::Number(_) => ValueType::Number,
        JsonModel::Bool(_) => ValueType::Boolean,
        JsonModel::Array(_) => ValueType::Array,
        JsonModel::Object(_) => ValueType::Object,
        JsonModel::Null => ValueType::Null,
    }
}

/// The name of a kind, as `Debug` writes it.
pub open spec fn kind_label(t: ValueType) -> Seq<char> {
    match t {
        ValueType::String => "String"@,
        ValueType::Number => "Number"@,
        ValueType::Boolean => "Boolean"@,
        ValueType::Array => "Array"@,
        ValueType::Object => "Object"@,
        ValueType::Null => "Null"@,
    }
}

fn kind_label_exec(t: ValueType) -> (s: String)
    ensures
        s@ == kind_label(t),
{
    match t {
        ValueType::String => "String".to_string(),
        ValueType::Number => "Number".to_string(),
        ValueType::Boolean => "Boolean".to_string(),
        ValueType::Array => "Array".to_string(),
        ValueType::Object => "Object".to_string(),
        ValueType::Null => "Null".to_string(),
    }
}

/// Decimal notation of an integer, with a minus sign when negative.
pub open spec fn int_string(n: int) -> Seq<char> {
    if n < 0 {
        seq!['-'] + dec_string((-n) as nat)
    } else {
        dec_string(n as nat)
    }
}

fn int_string_exec(n: i64) -> (s: String)
    ensures
        s@ == int_string(n as int),
{
    if n < 0 {
        let m: u64 = (0i128 - (n as i128)) as u64;
        let mut s = String::new();
        push_char(&mut s, '-');
        push_str(&mut s, decimal_string(m).as_str());
        assert(s@ =~= int_string(n as int));
        s
    } else {
        decimal_string(n as u64)
    }
}

/// Whether the regular expression `pattern` compiles.
pub uninterp spec fn regex_valid(pattern: Seq<char>) -> bool;

/// Whether the regular expression `pattern` matches somewhere in `text`.
pub uninterp spec fn regex_matches(pattern: Seq<char>, text: Seq<char>) -> bool;

/// `regex::Regex::new(pattern)` and, when it compiles, `is_match(text)` on
/// the result: whether the pattern matches somewhere in the text.  The
/// contract names both results and says nothing more of them.
#[verifier::external_body]
fn pattern_matches(pattern: &str, text: &str) -> (r: Option<bool>)
    ensures
        r is Some == regex_valid(pattern@),
        r matches Some(b) ==> b == regex_matches(pattern@, text@),
{
    match regex::Regex::new(pattern) {
        Ok(re) => Some(re.is_match(text)),
        Err(_) => None,
    }
}

/// The length that a length check counts: a string's bytes, an array's
/// items, 0 for anything else.
pub open spec fn checked_len(v: JsonModel) -> int {
    match v {
        JsonModel::Str(s) => (encode_utf8(s).len() as usize) as int,
        JsonModel::Array(a) => a.len() as int,
        _ => 0,
    }
}

/// The meaning of a validation error, strings taken by their characters.
pub enum ValidationErrorModel {
    TypeMismatch { expected: Seq<char>, actual: Seq<char> },
    OutOfRange { value: Seq<char>, min: Seq<char>, max: Seq<char> },
    PatternMismatch { value: Seq<char>, pattern: Seq<char> },
    RequiredFieldMissing { field: Seq<char> },
    UnauthorizedField { field: Seq<char> },
    LengthExceeded { length: usize, max: usize },
    InvalidEnumValue { value: Seq<char> },
    InvalidTransition { from: Seq<char>, to: Seq<char> },
    RuleFailed { rule: Seq<char> },
}

impl ValidationError {
    /// The meaning of this error.
    pub open spec fn model(&self) -> ValidationErrorModel {
        match self {
            ValidationError::TypeMismatch { expected, actual } => ValidationErrorModel::TypeMismatch {
                expected: expected@,
                actual: actual@,
            },
            ValidationError::OutOfRange { value, min, max } => ValidationErrorModel::OutOfRange {
                value: value@,
                min: min@,
                max: max@,
            },
            ValidationError::PatternMismatch { value, pattern } => ValidationErrorModel::PatternMismatch {
                value: value@,
                pattern: pattern@,
            },
            ValidationError::RequiredFieldMissing { field } => ValidationErrorModel::RequiredFieldMissing {
                field: field@,
            },
            ValidationError::UnauthorizedField { field } => ValidationErrorModel::UnauthorizedField {
                field: field@,
            },
            ValidationError::LengthExceeded { length, max } => ValidationErrorModel::LengthExceeded {
                length: *length,
                max: *max,
            },
            ValidationError::InvalidEnumValue { value } => ValidationErrorModel::InvalidEnumValue {
                value: value@,
            },
            ValidationError::InvalidTransition { from, to } => ValidationErrorModel::InvalidTransition {
                from: from@,
                to: to@,
            },
            ValidationError::RuleFailed { rule } => ValidationErrorModel::RuleFailed { rule: rule@ },
        }
    }
}

/// The meaning of a validation result.
pub open spec fn result_model(r: Result<(), ValidationError>) -> Result<(), ValidationErrorModel> {
    match r {
        Ok(()) => Ok(()),
        Err(e) => Err(e.model()),
    }
}

/// What one check gives on value `v`.
pub open spec fn check_one(t: ValidationType, v: JsonModel) -> Result<(), ValidationErrorModel> {
    match t {
        ValidationType::Type(expected) => if kind_of(v) == expected {
            Ok(())
        } else {
            Err(
                ValidationErrorModel::TypeMismatch {
                    expected: kind_label(expected),
                    actual: kind_label(kind_of(v)),
                },
            )
        },
        ValidationType::Pattern(p) => match v {
            JsonModel::Str(s) => if !regex_valid(p@) {
                Err(ValidationErrorModel::RuleFailed { rule: "Invalid regex pattern: "@ + p@ })
            } else if !regex_matches(p@, s) {
                Err(ValidationErrorModel::PatternMismatch { value: s, pattern: p@ })
            } else {
                Ok(())
            },
            _ => Ok(()),
        },
        ValidationType::Range { min, max } => match v {
            JsonModel::Number(n) => if min is Some && n < min->0 {
                Err(
                    ValidationErrorModel::OutOfRange {
                        value: int_string(n),
                        min: int_string(min->0 as int),
                        max: if max is Some {
                            int_string(max->0 as int)
                        } else {
                            "inf"@
                        },
                    },
                )
            } else if max is Some && n > max->0 {
                Err(
                    ValidationErrorModel::OutOfRange {
                        value: int_string(n),
                        min: if min is Some {
                            int_string(min->0 as int)
                        } else {
                            "-inf"@
                        },
                        max: int_string(max->0 as int),
                    },
                )
            } else {
                Ok(())
            },
            _ => Ok(()),
        },
        ValidationType::Length { min, max } => if min is Some && checked_len(v) < min->0 {
            Err(ValidationErrorModel::LengthExceeded { length: checked_len(v) as usize, max: min->0 })
        } else if max is Some && checked_len(v) > max->0 {
            Err(ValidationErrorModel::LengthExceeded { length: checked_len(v) as usize, max: max->0 })
        } else {
            Ok(())
        },
        ValidationType::Enum(allowed) => if models(allowed@).contains(v) {
            Ok(())
        } else {
            Err(ValidationErrorModel::InvalidEnumValue { value: json_text(v) })
        },
        ValidationType::Required => Ok(()),
        ValidationType::Custom(_) => Ok(()),
    }
}

/// What the checks from position `i` on give: the first failure.
pub open spec fn check_all(ts: Seq<ValidationType>, v: JsonModel, i: int) -> Result<(), ValidationErrorModel>
    decreases ts.len() - i,
{
    if i < 0 || i >= ts.len() {
        Ok(())
    } else {
        match check_one(ts[i], v) {
            Err(e) => Err(e),
            Ok(()) => check_all(ts, v, i + 1),
        }
    }
}

/// Whether a rule requires its field.
pub open spec fn requires_field(ts: Seq<ValidationType>) -> bool {
    exists|i: int| 0 <= i < ts.len() && ts[i] is Required
}

/// Runs one check on `v`.
fn check_one_exec(t: &ValidationType, v: &JsonValue) -> (r: Result<(), ValidationError>)
    ensures
        result_model(r) == check_one(*t, v@),
{
    match t {
        ValidationType::Type(expected) => {
            let actual = match v {
                JsonValue::String(_) => ValueType::String,
                JsonValue::Number(_) => ValueType::Number,
                JsonValue::Bool(_) => ValueType::Boolean,
                JsonValue::Array(_) => ValueType::Array,
                JsonValue::Object(_) => ValueType::Object,
                JsonValue::Null => ValueType::Null,
            };
            if actual == *expected {
                Ok(())
            } else {
                Err(
                    ValidationError::TypeMismatch {
                        expected: kind_label_exec(*expected),
                        actual: kind_label_exec(actual),
                    },
                )
            }
        },
        ValidationType::Pattern(p) => match v {
            JsonValue::String(s) => match pattern_matches(p.as_str(), s.as_str()) {
                None => Err(ValidationError::RuleFailed { rule: concat_str("Invalid regex pattern: ", p.as_str()) }),
                Some(false) => Err(ValidationError::PatternMismatch { value: copy_string(s), pattern: copy_string(p) }),
                Some(true) => Ok(()),
            },
            _ => Ok(()),
        },
        ValidationType::Range { min, max } => match v {
            JsonValue::Number(n) => {
                if let Some(lo) = min {
                    if *n < *lo {
                        let hi = match max {
                            Some(h) => int_string_exec(*h),
                            None => "inf".to_string(),
                        };
                        return Err(ValidationError::OutOfRange { value: int_string_exec(*n), min: int_string_exec(*lo), max: hi });
                    }
                }
                if let Some(hi) = max {
                    if *n > *hi {
                        let lo = match min {
                            Some(l) => int_string_exec(*l),
                            None => "-inf".to_string(),
                        };
                        return Err(ValidationError::OutOfRange { value: int_string_exec(*n), min: lo, max: int_string_exec(*hi) });
                    }
                }
                Ok(())
            },
            _ => Ok(()),
        },
        ValidationType::Length { min, max } => {
            let len: usize = match v {
                JsonValue::String(s) => s.as_str().len(),
                JsonValue::Array(a) => {
                    proof {
                        lemma_array_model(*a);
                    }
                    a.len()
                },
                _ => 0,
            };
            assert(len as int == checked_len(v@));
            if let Some(lo) = min {
                if len < *lo {
                    return Err(ValidationError::LengthExceeded { length: len, max: *lo });
                }
            }
            if let Some(hi) = max {
                if len > *hi {
                    return Err(ValidationError::LengthExceeded { length: len, max: *hi });
                }
            }
            Ok(())
        },
        ValidationType::Enum(allowed) => {
            let mut i: usize = 0;
            while i < allowed.len()
                invariant
                    i <= allowed@.len(),
                    *t == ValidationType::Enum(*allowed),
                    forall|j: int| 0 <= j < i ==> allowed@[j]@ != v@,
                decreases allowed@.len() - i,
            {
                if allowed[i].deep_eq(v) {
                    assert(models(allowed@)[i as int] == v@);
                    return Ok(());
                }
                i = i + 1;
            }
            assert forall|j: int| 0 <= j < models(allowed@).len() implies models(allowed@)[j] != v@ by {
                assert(models(allowed@)[j] == allowed@[j]@);
            }
            Err(ValidationError::InvalidEnumValue { value: json_text_of(v) })
        },
        ValidationType::Required => Ok(()),
        ValidationType::Custom(_) => Ok(()),
    }
}

/// The first key from position `i` on that no rule is for.
pub open spec fn first_unknown(keys: Seq<Seq<char>>, rules: Map<Seq<char>, ValidationRule>, i: int) -> Option<
    Seq<char>,
>
    decreases keys.len() - i,
{
    if i < 0 || i >= keys.len() {
        None
    } else if !rules.contains_key(keys[i]) {
        Some(keys[i])
    } else {
        first_unknown(keys, rules, i + 1)
    }
}

/// What the rules from position `i` on give on the updates `m`: the first
/// failing rule's error; a rule whose field is absent fails only when it
/// requires the field.
pub open spec fn rules_check(
    rs: Seq<(Seq<char>, ValidationRule)>,
    m: Map<Seq<char>, JsonModel>,
    i: int,
) -> Result<(), ValidationErrorModel>
    decreases rs.len() - i,
{
    if i < 0 || i >= rs.len() {
        Ok(())
    } else {
        let (k, rule) = rs[i];
        let here = if m.contains_key(k) {
            check_all(rule.validations@, m[k], 0)
        } else if requires_field(rule.validations@) {
            Err(ValidationErrorModel::RequiredFieldMissing { field: k })
        } else {
            Ok(())
        };
        match here {
            Err(e) => Err(e),
            Ok(()) => rules_check(rs, m, i + 1),
        }
    }
}

/// Checks state updates against rules, and moves between nodes against the
/// allowed transitions.
pub struct StateValidator {
    /// The rule of each field.
    pub rules: StrMap<ValidationRule>,
    /// For a node, the nodes it may move to.
    pub allowed_transitions: StrMap<Vec<String>>,
    /// Whether updates may hold fields without a rule.
    pub allow_unknown_fields: bool,
    /// Whether `sanitize` changes values.
    pub enable_sanitization: bool,
}

/// What validating `updates` against `v` gives: with unknown fields not
/// allowed, the first field of the updates without a rule fails; then the
/// rules are checked in order.
pub open spec fn validation_outcome(v: StateValidator, updates: StateData) -> Result<(), ValidationErrorModel> {
    match (if v.allow_unknown_fields {
        None
    } else {
        first_unknown(updates.key_seq(), v.rules.map(), 0)
    }) {
        Some(k) => Err(ValidationErrorModel::UnauthorizedField { field: k }),
        None => rules_check(v.rules.spec_entries(), state_model(updates), 0),
    }
}

/// A string without the characters at either end that `is_white` holds of.
pub open spec fn trimmed(s: Seq<char>) -> Seq<char> {
    let a = lead_len(s, 0);
    let b = trail_start(s, s.len() as int);
    if a >= b {
        Seq::empty()
    } else {
        s.subrange(a, b)
    }
}

/// The position of the first character from `i` on that is not white space.
pub open spec fn lead_len(s: Seq<char>, i: int) -> int
    decreases s.len() - i,
{
    if i < 0 || i >= s.len() {
        s.len() as int
    } else if is_white(s[i]) {
        lead_len(s, i + 1)
    } else {
        i
    }
}

/// The end of the string once white space before `j` is dropped.
pub open spec fn trail_start(s: Seq<char>, j: int) -> int
    decreases j,
{
    if j <= 0 || j > s.len() {
        0
    } else if is_white(s[j - 1]) {
        trail_start(s, j - 1)
    } else {
        j
    }
}

/// Whether a character is white space: it has the Unicode White_Space
/// property, as `char::is_whitespace` tells.
pub open spec fn is_white(c: char) -> bool {
    let n = c as u32;
    ||| 0x9 <= n <= 0xD
    ||| n == 0x20
    ||| n == 0x85
    ||| n == 0xA0
    ||| n == 0x1680
    ||| 0x2000 <= n <= 0x200A
    ||| n == 0x2028
    ||| n == 0x2029
    ||| n == 0x202F
    ||| n == 0x205F
    ||| n == 0x3000
}

/// Whether a character is white space.
fn char_is_whitespace(c: char) -> (b: bool)
    ensures
        b == is_white(c),
{
    let n = c as u32;
    (0x9 <= n && n <= 0xD) || n == 0x20 || n == 0x85 || n == 0xA0 || n == 0x1680 || (0x2000 <= n && n
        <= 0x200A) || n == 0x2028 || n == 0x2029 || n == 0x202F || n == 0x205F || n == 0x3000
}

/// The characters of `s` other than NUL.
pub open spec fn without_nul(s: Seq<char>) -> Seq<char>
    decreases s.len(),
{
    if s.len() == 0 {
        s
    } else if s.last() == '\0' {
        without_nul(s.drop_last())
    } else {
        without_nul(s.drop_last()).push(s.last())
    }
}

/// A sanitised string: trimmed, without NUL characters, and cut to its
/// first million characters when it has more than a million bytes.
pub open spec fn sanitized_text(s: Seq<char>) -> Seq<char> {
    let t = without_nul(trimmed(s));
    if (encode_utf8(t).len() as usize) > 1_000_000 && t.len() > 1_000_000 {
        t.take(1_000_000)
    } else {
        t
    }
}

/// A sanitised value: strings sanitised; arrays cut to their first ten
/// thousand items, objects to their first thousand entries, their parts
/// sanitised in turn; other values kept.
pub open spec fn sanitized(v: JsonModel) -> JsonModel
    decreases v,
{
    match v {
        JsonModel::Str(s) => JsonModel::Str(sanitized_text(s)),
        JsonModel::Array(a) => JsonModel::Array(
            Seq::new(
                if a.len() > 10_000 {
                    10_000
                } else {
                    a.len()
                },
                |i: int|
                    if 0 <= i < a.len() {
                        sanitized(a[i])
                    } else {
                        JsonModel::Null
                    },
            ),
        ),
        JsonModel::Object(o) => JsonModel::Object(
            Seq::new(
                if o.len() > 1_000 {
                    1_000
                } else {
                    o.len()
                },
                |i: int|
                    if 0 <= i < o.len() {
                        (o[i].0, sanitized(o[i].1))
                    } else {
                        (Seq::empty(), JsonModel::Null)
                    },
            ),
        ),
        _ => v,
    }
}


/// Whether a rule's checks include `Required`.
fn has_required(ts: &Vec<ValidationType>) -> (b: bool)
    ensures
        b == requires_field(ts@),
{
    let mut i: usize = 0;
    while i < ts.len()
        invariant
            i <= ts@.len(),
            forall|j: int| 0 <= j < i ==> !(ts@[j] is Required),
        decreases ts@.len() - i,
    {
        if matches!(ts[i], ValidationType::Required) {
            return true;
        }
        i = i + 1;
    }
    false
}

/// The string of `s` without white space at either end.
fn trim_text(s: &Vec<char>) -> (r: Vec<char>)
    ensures
        r@ == trimmed(s@),
{
    let n = s.len();
    let mut i: usize = 0;
    while i < n && char_is_whitespace(s[i])
        invariant
            i <= n,
            n == s@.len(),
            lead_len(s@, 0) == lead_len(s@, i as int),
        decreases n - i,
    {
        i = i + 1;
    }
    let mut j: usize = n;
    while j > 0 && char_is_whitespace(s[j - 1])
        invariant
            j <= n,
            n == s@.len(),
            trail_start(s@, n as int) == trail_start(s@, j as int),
        decreases j,
    {
        j = j - 1;
    }
    let mut r: Vec<char> = Vec::new();
    if i < j {
        let mut k: usize = i;
        while k < j
            invariant
                i <= k <= j,
                j <= n,
                n == s@.len(),
                r@ == s@.subrange(i as int, k as int),
            decreases j - k,
        {
            r.push(s[k]);
            assert(s@.subrange(i as int, k + 1) =~= s@.subrange(i as int, k as int).push(s@[k as int]));
            k = k + 1;
        }
    }
    proof {
        if !(i < j) {
            assert(r@ =~= Seq::<char>::empty());
        }
    }
    r
}

/// The characters of `s` other than NUL.
fn drop_nul(s: &Vec<char>) -> (r: Vec<char>)
    ensures
        r@ == without_nul(s@),
{
    let mut r: Vec<char> = Vec::new();
    let mut k: usize = 0;
    while k < s.len()
        invariant
            k <= s@.len(),
            r@ == without_nul(s@.take(k as int)),
        decreases s@.len() - k,
    {
        assert(s@.take(k + 1).drop_last() =~= s@.take(k as int));
        if s[k] != '\0' {
            r.push(s[k]);
        }
        k = k + 1;
    }
    assert(s@.take(s@.len() as int) =~= s@);
    r
}

/// A sanitised string.
fn sanitize_text(s: &String) -> (r: String)
    ensures
        r@ == sanitized_text(s@),
{
    let chars = to_chars(s.as_str());
    let t = drop_nul(&trim_text(&chars));
    let text = from_chars(t.as_slice());
    if text.as_str().len() > 1_000_000 {
        let mut cut: Vec<char> = Vec::new();
        let mut k: usize = 0;
        let limit: usize = if t.len() < 1_000_000 { t.len() } else { 1_000_000 };
        while k < limit
            invariant
                k <= limit,
                limit <= t@.len(),
                limit <= 1_000_000,
                cut@ == t@.take(k as int),
            decreases limit - k,
        {
            cut.push(t[k]);
            assert(t@.take(k + 1) =~= t@.take(k as int).push(t@[k as int]));
            k = k + 1;
        }
        proof {
            if t@.len() <= 1_000_000 {
                assert(t@.take(t@.len() as int) =~= t@);
            }
        }
        from_chars(cut.as_slice())
    } else {
        text
    }
}

impl StateValidator {
    /// A validator without rules or transitions, allowing unknown fields and
    /// sanitising values.
    pub fn new() -> (v: StateValidator)
        ensures
            v.rules.map() == Map::<Seq<char>, ValidationRule>::empty(),
            v.allowed_transitions.map() == Map::<Seq<char>, Vec<String>>::empty(),
            v.allow_unknown_fields,
            v.enable_sanitization,
    {
        StateValidator {
            rules: StrMap::new(),
            allowed_transitions: StrMap::new(),
            allow_unknown_fields: true,
            enable_sanitization: true,
        }
    }

    /// Adds the rule of its field, replacing an earlier one.
    pub fn add_rule(&mut self, rule: ValidationRule)
        ensures
            final(self).rules.map() == old(self).rules.map().insert(rule.field@, rule),
            final(self).allowed_transitions == old(self).allowed_transitions,
            final(self).allow_unknown_fields == old(self).allow_unknown_fields,
            final(self).enable_sanitization == old(self).enable_sanitization,
    {
        let key = copy_string(&rule.field);
        self.rules.insert(key, rule);
    }

    /// Sets whether updates may hold fields without a rule.
    pub fn set_allow_unknown_fields(&mut self, allow: bool)
        ensures
            final(self).allow_unknown_fields == allow,
            final(self).rules == old(self).rules,
    {
        self.allow_unknown_fields = allow;
    }

    /// Sets the nodes that `from` may move to.
    pub fn add_transition(&mut self, from: String, to: Vec<String>)
        ensures
            final(self).allowed_transitions.map() == old(self).allowed_transitions.map().insert(from@, to),
            final(self).rules == old(self).rules,
    {
        self.allowed_transitions.insert(from, to);
    }

    /// Runs a rule's checks on `value`, in order; the first failure is the result.
    fn validate_field(&self, value: &JsonValue, rule: &ValidationRule) -> (r: Result<(), ValidationError>)
        ensures
            result_model(r) == check_all(rule.validations@, value@, 0),
    {
        let ghost ts = rule.validations@;
        let mut i: usize = 0;
        while i < rule.validations.len()
            invariant
                i <= ts.len(),
                ts == rule.validations@,
                check_all(ts, value@, 0) == check_all(ts, value@, i as int),
            decreases ts.len() - i,
        {
            match check_one_exec(&rule.validations[i], value) {
                Ok(()) => {},
                Err(e) => {
                    return Err(e);
                },
            }
            i = i + 1;
        }
        Ok(())
    }

    /// Checks `updates`: with unknown fields not allowed, every field needs
    /// a rule; then each rule, in order, checks its field, and a required
    /// field must be there.  The current state plays no part.
    pub fn validate(&self, current: &StateData, updates: &StateData) -> (r: Result<(), ValidationError>)
        ensures
            result_model(r) == validation_outcome(*self, *updates),
    {
        let ghost keys = updates.key_seq();
        if !self.allow_unknown_fields {
            let mut i: usize = 0;
            while i < updates.len()
                invariant
                    i <= keys.len(),
                    !self.allow_unknown_fields,
                    keys == updates.key_seq(),
                    keys.len() == updates.spec_entries().len(),
                    first_unknown(keys, self.rules.map(), 0) == first_unknown(keys, self.rules.map(), i as int),
                decreases keys.len() - i,
            {
                let k = updates.key_at(i);
                assert(keys[i as int] == k@);
                if !self.rules.contains_key(k.as_str()) {
                    return Err(ValidationError::UnauthorizedField { field: copy_string(k) });
                }
                i = i + 1;
            }
        }
        let ghost rs = self.rules.spec_entries();
        let ghost m = state_model(*updates);
        let mut j: usize = 0;
        while j < self.rules.len()
            invariant
                j <= rs.len(),
                rs == self.rules.spec_entries(),
                m == state_model(*updates),
                validation_outcome(*self, *updates) == rules_check(rs, m, j as int),
            decreases rs.len() - j,
        {
            let k = self.rules.key_at(j);
            let rule = self.rules.value_at(j);
            match updates.get(k.as_str()) {
                Some(v) => {
                    match self.validate_field(v, rule) {
                        Ok(()) => {},
                        Err(e) => {
                            return Err(e);
                        },
                    }
                },
                None => {
                    if has_required(&rule.validations) {
                        return Err(ValidationError::RequiredFieldMissing { field: copy_string(k) });
                    }
                },
            }
            j = j + 1;
        }
        Ok(())
    }

    /// The sanitised form of a value.
    #[verifier::loop_isolation(false)]
    pub fn sanitized_value(&self, value: &JsonValue) -> (r: JsonValue)
        ensures
            r@ == sanitized(value@),
        decreases value,
    {
        match value {
            JsonValue::String(s) => JsonValue::String(sanitize_text(s)),
            JsonValue::Array(a) => {
                proof {
                    lemma_array_model(*a);
                }
                let limit: usize = if a.len() > 10_000 { 10_000 } else { a.len() };
                let mut out: Vec<JsonValue> = Vec::new();
                let mut i: usize = 0;
                while i < limit
                    invariant
                        i <= limit,
                        *value == JsonValue::Array(*a),
                        limit <= a@.len(),
                        out@.len() == i,
                        forall|j: int| 0 <= j < i ==> out@[j]@ == sanitized(a@[j]@),
                    decreases limit - i,
                {
                    proof {
                        assert(decreases_to!(*value => a[i as int]));
                    }
                    let x = self.sanitized_value(&a[i]);
                    out.push(x);
                    i = i + 1;
                }
                proof {
                    lemma_array_model(out);
                    assert forall|j: int| 0 <= j < out@.len() implies models(out@)[j] == sanitized(value@)->Array_0[j] by {
                        assert(models(a@)[j] == a@[j]@);
                    }
                }
                assert(models(out@) =~= sanitized(value@)->Array_0);
                JsonValue::Array(out)
            },
            JsonValue::Object(o) => {
                proof {
                    lemma_object_model(*o);
                }
                let limit: usize = if o.len() > 1_000 { 1_000 } else { o.len() };
                let mut out: Vec<(String, JsonValue)> = Vec::new();
                let mut i: usize = 0;
                while i < limit
                    invariant
                        i <= limit,
                        *value == JsonValue::Object(*o),
                        limit <= o@.len(),
                        out@.len() == i,
                        forall|j: int| 0 <= j < i ==> out@[j].0@ == o@[j].0@ && out@[j].1@ == sanitized(o@[j].1@),
                    decreases limit - i,
                {
                    proof {
                        assert(decreases_to!(*value => o[i as int]));
                    }
                    let k = copy_string(&o[i].0);
                    let x = self.sanitized_value(&o[i].1);
                    out.push((k, x));
                    i = i + 1;
                }
                proof {
                    lemma_object_model(out);
                    assert forall|j: int| 0 <= j < out@.len() implies entry_models(out@)[j] == sanitized(value@)->Object_0[j] by {
                        assert(entry_models(o@)[j] == (o@[j].0@, o@[j].1@));
                    }
                }
                assert(entry_models(out@) =~= sanitized(value@)->Object_0);
                JsonValue::Object(out)
            },
            JsonValue::Null => JsonValue::Null,
            JsonValue::Bool(b) => JsonValue::Bool(*b),
            JsonValue::Number(n) => JsonValue::Number(*n),
        }
    }

    /// Sanitises `value` in place, when sanitisation is on.
    pub fn sanitize(&self, value: &mut JsonValue)
        ensures
            self.enable_sanitization ==> final(value)@ == sanitized(old(value)@),
            !self.enable_sanitization ==> *final(value) == *old(value),
    {
        if !self.enable_sanitization {
            return;
        }
        let r = self.sanitized_value(value);
        *value = r;
    }

    /// Checks a move from `from` to `to`: fine unless `from` has allowed
    /// moves and `to` is not among them.
    pub fn validate_transition(&self, from: &str, to: &str) -> (r: Result<(), ValidationError>)
        ensures
            (self.allowed_transitions.map().contains_key(from@) && !strings_view(
                self.allowed_transitions.map()[from@]@,
            ).contains(to@)) ==> (r matches Err(ValidationError::InvalidTransition { from: f, to: t })
                && f@ == from@ && t@ == to@),
            !(self.allowed_transitions.map().contains_key(from@) && !strings_view(
                self.allowed_transitions.map()[from@]@,
            ).contains(to@)) ==> r is Ok,
    {
        match self.allowed_transitions.get(from) {
            Some(allowed) => {
                let mut i: usize = 0;
                while i < allowed.len()
                    invariant
                        i <= allowed@.len(),
                        self.allowed_transitions.map().contains_key(from@),
                        *allowed == self.allowed_transitions.map()[from@],
                        forall|j: int| 0 <= j < i ==> allowed@[j]@ != to@,
                    decreases allowed@.len() - i,
                {
                    if str_eq(allowed[i].as_str(), to) {
                        assert(strings_view(allowed@)[i as int] == to@);
                        assert(strings_view(allowed@).contains(to@));
                        return Ok(());
                    }
                    i = i + 1;
                }
                assert forall|j: int| 0 <= j < strings_view(allowed@).len() implies strings_view(allowed@)[j] != to@ by {
                    assert(strings_view(allowed@)[j] == allowed@[j]@);
                }
                Err(ValidationError::InvalidTransition { from: from.to_string(), to: to.to_string() })
            },
            None => Ok(()),
        }
    }
}

/// Builds a validation rule step by step.
#[derive(Debug)]
pub struct ValidationRuleBuilder {
    pub field: String,
    pub validations: Vec<ValidationType>,
    pub sanitize: bool,
    pub allow_field: bool,
}

impl ValidationRuleBuilder {
    /// Starts the rule of `field`, with no checks.
    pub fn new(field: String) -> (b: ValidationRuleBuilder)
        ensures
            b.field == field,
            b.validations@.len() == 0,
            b.sanitize,
            b.allow_field,
    {
        ValidationRuleBuilder { field, validations: Vec::new(), sanitize: true, allow_field: true }
    }

    /// Adds a check.
    fn with(self, t: ValidationType) -> (b: ValidationRuleBuilder)
        ensures
            b.field == self.field,
            b.validations@ == self.validations@.push(t),
            b.sanitize == self.sanitize,
            b.allow_field == self.allow_field,
    {
        let mut b = self;
        b.validations.push(t);
        b
    }

    /// Adds a kind check.
    pub fn with_type(self, value_type: ValueType) -> (b: ValidationRuleBuilder)
        ensures
            b.validations@ == self.validations@.push(ValidationType::Type(value_type)),
            b.field == self.field,
    {
        self.with(ValidationType::Type(value_type))
    }

    /// Adds a pattern check.
    pub fn with_pattern(self, pattern: String) -> (b: ValidationRuleBuilder)
        ensures
            b.validations@ == self.validations@.push(ValidationType::Pattern(pattern)),
            b.field == self.field,
    {
        self.with(ValidationType::Pattern(pattern))
    }

    /// Adds a range check.
    pub fn with_range(self, min: Option<i64>, max: Option<i64>) -> (b: ValidationRuleBuilder)
        ensures
            b.validations@ == self.validations@.push(ValidationType::Range { min, max }),
            b.field == self.field,
    {
        self.with(ValidationType::Range { min, max })
    }

    /// Adds a length check.
    pub fn with_length(self, min: Option<usize>, max: Option<usize>) -> (b: ValidationRuleBuilder)
        ensures
            b.validations@ == self.validations@.push(ValidationType::Length { min, max }),
            b.field == self.field,
    {
        self.with(ValidationType::Length { min, max })
    }

    /// Adds a check that the value is one of `values`.
    pub fn with_enum(self, values: Vec<JsonValue>) -> (b: ValidationRuleBuilder)
        ensures
            b.validations@ == self.validations@.push(ValidationType::Enum(values)),
            b.field == self.field,
    {
        self.with(ValidationType::Enum(values))
    }

    /// Requires the field.
    pub fn required(self) -> (b: ValidationRuleBuilder)
        ensures
            b.validations@ == self.validations@.push(ValidationType::Required),
            b.field == self.field,
    {
        self.with(ValidationType::Required)
    }

    /// Turns sanitisation off.
    pub fn no_sanitize(self) -> (b: ValidationRuleBuilder)
        ensures
            b.validations == self.validations,
            b.field == self.field,
            !b.sanitize,
    {
        let mut b = self;
        b.sanitize = false;
        b
    }

    /// The rule.
    pub fn build(self) -> (r: ValidationRule)
        ensures
            r.field == self.field,
            r.validations == self.validations,
            r.sanitize == self.sanitize,
            r.allow_field == self.allow_field,
    {
        ValidationRule {
            field: self.field,
            validations: self.validations,
            sanitize: self.sanitize,
            allow_field: self.allow_field,
        }
    }
}

} // verus!
