//! Schemas: typed field definitions that a state is validated against, and
//! the defaults they supply.
use vstd::prelude::*;
use vstd::utf8::encode_utf8;
use crate::error::{LangGraphError, LgResult};
use crate::json::{JsonValue, JsonModel, entry_models, lemma_array_model, lemma_object_model};
use crate::keyed_map::StrMap;
use crate::state::{StateData, state_model, clone_state, copy_key};
use crate::text::{concat_str, push_str, decimal_string, dec_string, str_eq};
use crate::graph::strings_view;

verus! {

/// Errors of schema validation.
#[derive(Debug)]
pub enum SchemaError {
    MissingField(String),
    InvalidType { field: String, expected: String, actual: String },
    TooShort { field: String, value: String, min: usize },
    TooLong { field: String, length: usize, max: usize },
    BelowMinimum { field: String, value: i64, min: i64 },
    AboveMaximum { field: String, value: i64, max: i64 },
    InvalidEnum { field: String, value: String, valid_options: Vec<String> },
    NestedError { field: String, error: Box<SchemaError> },
    CustomValidation { field: String, message: String },
}

/// The meaning of a schema error, strings taken by their characters.
pub enum SchemaErrorModel {
    MissingField(Seq<char>),
    InvalidType { field: Seq<char>, expected: Seq<char>, actual: Seq<char> },
    TooShort { field: Seq<char>, value: Seq<char>, min: usize },
    TooLong { field: Seq<char>, length: usize, max: usize },
    BelowMinimum { field: Seq<char>, value: i64, min: i64 },
    AboveMaximum { field: Seq<char>, value: i64, max: i64 },
    InvalidEnum { field: Seq<char>, value: Seq<char>, valid_options: Seq<Seq<char>> },
    NestedError { field: Seq<char>, error: Box<SchemaErrorModel> },
    CustomValidation { field: Seq<char>, message: Seq<char> },
}

impl SchemaError {
    /// The meaning of this error.
    pub open spec fn model(&self) -> SchemaErrorModel
        decreases self,
    {
        match self {
            SchemaError::MissingField(f) => SchemaErrorModel::MissingField(f@),
            SchemaError::InvalidType { field, expected, actual } => SchemaErrorModel::InvalidType {
                field: field@,
                expected: expected@,
                actual: actual@,
            },
            SchemaError::TooShort { field, value, min } => SchemaErrorModel::TooShort {
                field: field@,
                value: value@,
                min: *min,
            },
            SchemaError::TooLong { field, length, max } => SchemaErrorModel::TooLong {
                field: field@,
                length: *length,
                max: *max,
            },
            SchemaError::BelowMinimum { field, value, min } => SchemaErrorModel::BelowMinimum {
                field: field@,
                value: *value,
                min: *min,
            },
            SchemaError::AboveMaximum { field, value, max } => SchemaErrorModel::AboveMaximum {
                field: field@,
                value: *value,
                max: *max,
            },
            SchemaError::InvalidEnum { field, value, valid_options } => SchemaErrorModel::InvalidEnum {
                field: field@,
                value: value@,
                valid_options: strings_view(valid_options@),
            },
            SchemaError::NestedError { field, error } => SchemaErrorModel::NestedError {
                field: field@,
                error: Box::new(error.model()),
            },
            SchemaError::CustomValidation { field, message } => SchemaErrorModel::CustomValidation {
                field: field@,
                message: message@,
            },
        }
    }
}

/// The meaning of a validation result.
pub open spec fn outcome_model(r: Result<(), SchemaError>) -> Result<(), SchemaErrorModel> {
    match r {
        Ok(()) => Ok(()),
        Err(e) => Err(e.model()),
    }
}

/// The type a field holds.
#[derive(Debug)]
pub enum FieldType {
    String,
    Integer,
    Float,
    Boolean,
    /// An array whose elements all have the inner type.
    Array(Box<FieldType>),
    /// An object validated against a nested schema.
    Object(Box<Schema>),
    /// A string among the options.
    Enum(Vec<String>),
    Any,
}

/// A field's definition: its type, whether it is required, its default,
/// and bounds on its length or value.
#[derive(Debug)]
pub struct FieldDefinition {
    pub name: String,
    pub field_type: FieldType,
    pub required: bool,
    pub default: Option<JsonValue>,
    pub min_length: Option<usize>,
    pub max_length: Option<usize>,
    pub min_value: Option<i64>,
    pub max_value: Option<i64>,
    /// Names of custom validators.
    pub validators: Vec<String>,
}

/// A named set of field definitions.
#[derive(Debug)]
pub struct Schema {
    pub name: String,
    /// The field definitions, by name.
    pub fields: Vec<(String, FieldDefinition)>,
}

/// How `Debug` writes a list of strings.
pub uninterp spec fn debug_list(items: Seq<Seq<char>>) -> Seq<char>;

/// `format!("{:?}", v)` of std: the `Debug` text of a list of strings.
/// The contract names the result `debug_list` of the strings and says
/// nothing more of it.
#[verifier::external_body]
fn debug_strings(v: &Vec<String>) -> (s: String)
    ensures
        s@ == debug_list(strings_view(v@)),
{
    format!("{:?}", v)
}

/// Whether the values of `a` from position `i` on all have type `t`.
pub open spec fn all_match(t: FieldType, a: Seq<JsonModel>, i: int) -> bool
    decreases a, a.len() - i,
{
    if i < 0 || i >= a.len() {
        true
    } else {
        type_matches(t, a[i]) && all_match(t, a, i + 1)
    }
}

/// Whether a value of model `v` has type `t`.
pub open spec fn type_matches(t: FieldType, v: JsonModel) -> bool
    decreases v, 0int,
{
    match (t, v) {
        (FieldType::String, JsonModel::Str(_)) => true,
        (FieldType::Integer, JsonModel::Number(_)) => true,
        (FieldType::Float, JsonModel::Number(_)) => true,
        (FieldType::Boolean, JsonModel::Bool(_)) => true,
        (FieldType::Array(inner), JsonModel::Array(a)) => all_match(*inner, a, 0),
        (FieldType::Object(_), JsonModel::Object(_)) => true,
        (FieldType::Enum(opts), JsonModel::Str(s)) => strings_view(opts@).contains(s),
        (FieldType::Any, _) => true,
        _ => false,
    }
}

/// The readable name of a type.
pub open spec fn type_name_of(t: FieldType) -> Seq<char>
    decreases t,
{
    match t {
        FieldType::String => "string"@,
        FieldType::Integer => "integer"@,
        FieldType::Float => "float"@,
        FieldType::Boolean => "boolean"@,
        FieldType::Array(inner) => "array<"@ + type_name_of(*inner) + ">"@,
        FieldType::Object(schema) => "object<"@ + schema.name@ + ">"@,
        FieldType::Enum(opts) => "enum("@ + debug_list(strings_view(opts@)) + ")"@,
        FieldType::Any => "any"@,
    }
}

/// The kind of a value, as the messages name it.
pub open spec fn kind_name(v: JsonModel) -> Seq<char> {
    match v {
        JsonModel::Null => "null"@,
        JsonModel::Bool(_) => "boolean"@,
        JsonModel::Number(_) => "number"@,
        JsonModel::Str(_) => "string"@,
        JsonModel::Array(_) => "array"@,
        JsonModel::Object(_) => "object"@,
    }
}

/// The length of a string in bytes of UTF-8.
pub open spec fn byte_len(s: Seq<char>) -> nat {
    encode_utf8(s).len()
}

/// The map an object's entries make: a later entry for a key wins.
pub open spec fn obj_map(o: Seq<(Seq<char>, JsonModel)>) -> Map<Seq<char>, JsonModel>
    decreases o.len(),
{
    if o.len() == 0 {
        Map::empty()
    } else {
        obj_map(o.drop_last()).insert(o.last().0, o.last().1)
    }
}

/// The value of field `k` of a state, if any.
pub open spec fn lookup(m: Map<Seq<char>, JsonModel>, k: Seq<char>) -> Option<JsonModel> {
    if m.contains_key(k) {
        Some(m[k])
    } else {
        None
    }
}

/// What checking value `v` against definition `d` gives.
pub open spec fn field_check(d: FieldDefinition, v: Option<JsonModel>) -> Result<(), SchemaErrorModel>
    decreases d, 1nat,
{
    match v {
        None => if d.required {
            Err(SchemaErrorModel::MissingField(d.name@))
        } else {
            Ok(())
        },
        Some(val) => if !type_matches(d.field_type, val) {
            Err(
                SchemaErrorModel::InvalidType {
                    field: d.name@,
                    expected: type_name_of(d.field_type),
                    actual: kind_name(val),
                },
            )
        } else {
            match (d.field_type, val) {
                (FieldType::String, JsonModel::Str(s)) => if d.min_length is Some && (byte_len(s) as usize)
                    < d.min_length->0 {
                    Err(SchemaErrorModel::TooShort { field: d.name@, value: s, min: d.min_length->0 })
                } else if d.max_length is Some && (byte_len(s) as usize) > d.max_length->0 {
                    Err(
                        SchemaErrorModel::TooLong {
                            field: d.name@,
                            length: byte_len(s) as usize,
                            max: d.max_length->0,
                        },
                    )
                } else {
                    Ok(())
                },
                (FieldType::Integer, JsonModel::Number(n)) => if d.min_value is Some && n
                    < d.min_value->0 {
                    Err(
                        SchemaErrorModel::BelowMinimum {
                            field: d.name@,
                            value: n as i64,
                            min: d.min_value->0,
                        },
                    )
                } else if d.max_value is Some && n > d.max_value->0 {
                    Err(
                        SchemaErrorModel::AboveMaximum {
                            field: d.name@,
                            value: n as i64,
                            max: d.max_value->0,
                        },
                    )
                } else {
                    Ok(())
                },
                (FieldType::Array(_), JsonModel::Array(a)) => if d.min_length is Some && a.len()
                    < d.min_length->0 {
                    Err(
                        SchemaErrorModel::TooShort {
                            field: d.name@,
                            value: "array of length "@ + dec_string(a.len()),
                            min: d.min_length->0,
                        },
                    )
                } else if d.max_length is Some && a.len() > d.max_length->0 {
                    Err(
                        SchemaErrorModel::TooLong {
                            field: d.name@,
                            length: a.len() as usize,
                            max: d.max_length->0,
                        },
                    )
                } else {
                    Ok(())
                },
                (FieldType::Object(schema), JsonModel::Object(o)) => match fields_check(
                    schema.fields@,
                    obj_map(o),
                ) {
                    Ok(()) => Ok(()),
                    Err(e) => Err(SchemaErrorModel::NestedError { field: d.name@, error: Box::new(e) }),
                },
                _ => Ok(()),
            }
        },
    }
}

/// What checking a state against field definitions gives: the first
/// failing field's error, in the order of the definitions.
pub open spec fn fields_check(
    fields: Seq<(String, FieldDefinition)>,
    m: Map<Seq<char>, JsonModel>,
) -> Result<(), SchemaErrorModel>
    decreases fields, 0nat,
{
    if fields.len() == 0 {
        Ok(())
    } else {
        match field_check(fields[0].1, lookup(m, fields[0].0@)) {
            Err(e) => Err(e),
            Ok(()) => fields_check(fields.drop_first(), m),
        }
    }
}

/// The position of the first entry with key `k`, or -1.
pub open spec fn first_key<T>(s: Seq<(String, T)>, k: Seq<char>) -> int
    decreases s.len(),
{
    if s.len() == 0 {
        -1
    } else {
        let r = first_key(s.drop_last(), k);
        if r >= 0 {
            r
        } else if s.last().0@ == k {
            s.len() - 1
        } else {
            -1
        }
    }
}

/// `first_key` gives -1 or the first position holding the key.
pub proof fn lemma_first_key<T>(s: Seq<(String, T)>, k: Seq<char>)
    ensures
        -1 <= first_key(s, k) < s.len(),
        first_key(s, k) >= 0 ==> s[first_key(s, k)].0@ == k,
        forall|j: int| 0 <= j < s.len() && (first_key(s, k) < 0 || j < first_key(s, k))
            ==> (#[trigger] s[j]).0@ != k,
    decreases s.len(),
{
    if s.len() > 0 {
        let d = s.drop_last();
        lemma_first_key(d, k);
        assert forall|j: int| 0 <= j < s.len() && (first_key(s, k) < 0 || j < first_key(s, k))
            implies (#[trigger] s[j]).0@ != k by {
            if j < d.len() {
                assert(d[j] == s[j]);
            }
        }
    }
}

/// The position of the first entry with key `k`, if any.
fn find_key<T>(v: &Vec<(String, T)>, k: &str) -> (r: Option<usize>)
    ensures
        match r {
            Some(i) => i as int == first_key(v@, k@) && i < v@.len(),
            None => first_key(v@, k@) < 0,
        },
{
    proof {
        lemma_first_key(v@, k@);
    }
    let mut i: usize = 0;
    while i < v.len()
        invariant
            i <= v@.len(),
            forall|j: int| 0 <= j < i ==> (#[trigger] v@[j]).0@ != k@,
            -1 <= first_key(v@, k@) < v@.len(),
            first_key(v@, k@) >= 0 ==> v@[first_key(v@, k@)].0@ == k@,
            forall|j: int| 0 <= j < v@.len() && (first_key(v@, k@) < 0 || j < first_key(v@, k@))
                ==> (#[trigger] v@[j]).0@ != k@,
        decreases v@.len() - i,
    {
        if str_eq(v[i].0.as_str(), k) {
            return Some(i);
        }
        i = i + 1;
    }
    None
}

/// The state with each field's default set where the field is missing, in
/// the order of the definitions.
pub open spec fn defaults_applied(
    fields: Seq<(String, FieldDefinition)>,
    m: Map<Seq<char>, JsonModel>,
) -> Map<Seq<char>, JsonModel>
    decreases fields.len(),
{
    if fields.len() == 0 {
        m
    } else {
        let k = fields[0].0@;
        let m1 = if !m.contains_key(k) && fields[0].1.default is Some {
            m.insert(k, fields[0].1.default->0@)
        } else {
            m
        };
        defaults_applied(fields.drop_first(), m1)
    }
}

impl FieldType {
    /// Whether `value` has this type.
    pub fn matches(&self, value: &JsonValue) -> (b: bool)
        ensures
            b == type_matches(*self, value@),
        decreases value,
    {
        match (self, value) {
            (FieldType::String, JsonValue::String(_)) => true,
            (FieldType::Integer, JsonValue::Number(_)) => true,
            (FieldType::Float, JsonValue::Number(_)) => true,
            (FieldType::Boolean, JsonValue::Bool(_)) => true,
            (FieldType::Array(inner), JsonValue::Array(arr)) => {
                proof {
                    lemma_array_model(*arr);
                }
                let ghost ms = crate::json::models(arr@);
                let mut i: usize = 0;
                while i < arr.len()
                    invariant
                        i <= arr@.len(),
                        *self == FieldType::Array(*inner),
                        value@ == JsonModel::Array(ms),
                        ms == crate::json::models(arr@),
                        *value == JsonValue::Array(*arr),
                        all_match(**inner, ms, 0) == all_match(**inner, ms, i as int),
                    decreases arr@.len() - i,
                {
                    proof {
                        assert(decreases_to!(*value => arr[i as int]));
                    }
                    assert(ms[i as int] == arr@[i as int]@);
                    if !inner.matches(&arr[i]) {
                        return false;
                    }
                    i = i + 1;
                }
                true
            },
            (FieldType::Object(_), JsonValue::Object(_)) => true,
            (FieldType::Enum(opts), JsonValue::String(s)) => {
                let mut i: usize = 0;
                while i < opts.len()
                    invariant
                        i <= opts@.len(),
                        *self == FieldType::Enum(*opts),
                        *value == JsonValue::String(*s),
                        forall|j: int| 0 <= j < i ==> opts@[j]@ != s@,
                    decreases opts@.len() - i,
                {
                    if str_eq(opts[i].as_str(), s.as_str()) {
                        assert(strings_view(opts@)[i as int] == s@);
                        assert(strings_view(opts@).contains(s@));
                        return true;
                    }
                    i = i + 1;
                }
                assert forall|j: int| 0 <= j < strings_view(opts@).len() implies strings_view(opts@)[j] != s@ by {
                    assert(strings_view(opts@)[j] == opts@[j]@);
                }
                false
            },
            (FieldType::Any, _) => true,
            _ => false,
        }
    }

    /// The readable name of this type.
    pub fn type_label(&self) -> (s: String)
        ensures
            s@ == type_name_of(*self),
        decreases self,
    {
        match self {
            FieldType::String => "string".to_string(),
            FieldType::Integer => "integer".to_string(),
            FieldType::Float => "float".to_string(),
            FieldType::Boolean => "boolean".to_string(),
            FieldType::Array(inner) => {
                let mut s = concat_str("array<", inner.type_label().as_str());
                push_str(&mut s, ">");
                s
            },
            FieldType::Object(schema) => {
                let mut s = concat_str("object<", schema.name.as_str());
                push_str(&mut s, ">");
                s
            },
            FieldType::Enum(opts) => {
                let mut s = concat_str("enum(", debug_strings(opts).as_str());
                push_str(&mut s, ")");
                s
            },
            FieldType::Any => "any".to_string(),
        }
    }
}

/// The kind of a value, as the messages name it.
fn kind_of(v: &JsonValue) -> (s: String)
    ensures
        s@ == kind_name(v@),
{
    match v {
        JsonValue::Null => "null".to_string(),
        JsonValue::Bool(_) => "boolean".to_string(),
        JsonValue::Number(_) => "number".to_string(),
        JsonValue::String(_) => "string".to_string(),
        JsonValue::Array(_) => "array".to_string(),
        JsonValue::Object(_) => "object".to_string(),
    }
}

impl FieldDefinition {
    /// A builder for a definition of field `name` of type `field_type`.
    pub fn builder(name: String, field_type: FieldType) -> (b: FieldDefinitionBuilder)
        ensures
            b.name == name,
            b.field_type == field_type,
            !b.required,
            b.default is None,
            b.min_length is None,
            b.max_length is None,
            b.min_value is None,
            b.max_value is None,
            b.validators@.len() == 0,
    {
        FieldDefinitionBuilder::new(name, field_type)
    }

    /// Checks `value` against this definition: presence, type, then the
    /// bounds of its type; a nested object against its schema.
    pub fn validate(&self, value: Option<&JsonValue>) -> (r: Result<(), SchemaError>)
        ensures
            outcome_model(r) == field_check(*self, crate::state::reducer::opt_model(value)),
        decreases *self, 1nat,
    {
        let val = match value {
            Some(v) => v,
            None => {
                if self.required {
                    return Err(SchemaError::MissingField(self.name.clone()));
                } else {
                    return Ok(());
                }
            },
        };
        if !self.field_type.matches(val) {
            return Err(
                SchemaError::InvalidType {
                    field: self.name.clone(),
                    expected: self.field_type.type_label(),
                    actual: kind_of(val),
                },
            );
        }
        match (&self.field_type, val) {
            (FieldType::String, JsonValue::String(s)) => {
                let len = s.as_str().len();
                assert(len == byte_len(s@) as usize);
                if let Some(min) = self.min_length {
                    if len < min {
                        return Err(SchemaError::TooShort { field: self.name.clone(), value: s.clone(), min });
                    }
                }
                if let Some(max) = self.max_length {
                    if len > max {
                        return Err(SchemaError::TooLong { field: self.name.clone(), length: len, max });
                    }
                }
                Ok(())
            },
            (FieldType::Integer, JsonValue::Number(n)) => {
                if let Some(min) = self.min_value {
                    if *n < min {
                        return Err(SchemaError::BelowMinimum { field: self.name.clone(), value: *n, min });
                    }
                }
                if let Some(max) = self.max_value {
                    if *n > max {
                        return Err(SchemaError::AboveMaximum { field: self.name.clone(), value: *n, max });
                    }
                }
                Ok(())
            },
            (FieldType::Array(_), JsonValue::Array(arr)) => {
                proof {
                    lemma_array_model(*arr);
                }
                let len = arr.len();
                if let Some(min) = self.min_length {
                    if len < min {
                        let v = concat_str("array of length ", decimal_string(len as u64).as_str());
                        return Err(SchemaError::TooShort { field: self.name.clone(), value: v, min });
                    }
                }
                if let Some(max) = self.max_length {
                    if len > max {
                        return Err(SchemaError::TooLong { field: self.name.clone(), length: len, max });
                    }
                }
                Ok(())
            },
            (FieldType::Object(schema), JsonValue::Object(obj)) => {
                proof {
                    lemma_object_model(*obj);
                }
                let ghost om = entry_models(obj@);
                let mut nested: StateData = StrMap::new();
                assert(state_model(nested) =~= obj_map(om.take(0)));
                let mut i: usize = 0;
                while i < obj.len()
                    invariant
                        i <= obj@.len(),
                        om == entry_models(obj@),
                        state_model(nested) == obj_map(om.take(i as int)),
                    decreases obj@.len() - i,
                {
                    let k = copy_key(&obj[i].0);
                    let v = obj[i].1.deep_clone();
                    let ghost before = state_model(nested);
                    nested.insert(k, v);
                    proof {
                        assert(om.take(i + 1).drop_last() =~= om.take(i as int));
                        assert(om.take(i + 1).last() == (k@, v@));
                        assert(state_model(nested) =~= before.insert(k@, v@));
                    }
                    i = i + 1;
                }
                assert(om.take(obj@.len() as int) =~= om);
                proof {
                    assert(decreases_to!(*self => self.field_type));
                }
                match schema.validate(&nested) {
                    Ok(()) => Ok(()),
                    Err(e) => Err(SchemaError::NestedError { field: self.name.clone(), error: Box::new(e) }),
                }
            },
            _ => Ok(()),
        }
    }
}

impl Schema {
    /// A schema with no fields.
    pub fn new(name: String) -> (s: Schema)
        ensures
            s.name == name,
            s.fields@.len() == 0,
    {
        Schema { name, fields: Vec::new() }
    }

    /// Adds `field` under its name, replacing a definition of that name.
    pub fn add_field(&mut self, field: FieldDefinition)
        ensures
            final(self).name == old(self).name,
            first_key(old(self).fields@, field.name@) >= 0 ==> final(self).fields@ == old(self).fields@.update(
                first_key(old(self).fields@, field.name@),
                (final(self).fields@[first_key(old(self).fields@, field.name@)].0, field),
            ) && final(self).fields@[first_key(old(self).fields@, field.name@)].0@ == field.name@,
            first_key(old(self).fields@, field.name@) < 0 ==> final(self).fields@.len() == old(self).fields@.len() + 1
                && final(self).fields@.take(old(self).fields@.len() as int) == old(self).fields@
                && final(self).fields@.last().0@ == field.name@ && final(self).fields@.last().1 == field,
    {
        let key = field.name.clone();
        match find_key(&self.fields, key.as_str()) {
            Some(i) => {
                self.fields.set(i, (key, field));
            },
            None => {
                let ghost f0 = self.fields@;
                self.fields.push((key, field));
                assert(self.fields@.take(f0.len() as int) =~= f0);
            },
        }
    }

    /// Checks `state` field by field, in the order of the definitions; the
    /// first failure is the result.
    pub fn validate(&self, state: &StateData) -> (r: Result<(), SchemaError>)
        ensures
            outcome_model(r) == fields_check(self.fields@, state_model(*state)),
        decreases *self, 0nat,
    {
        let ghost fs = self.fields@;
        let ghost m = state_model(*state);
        assert(fs.skip(0) =~= fs);
        let mut i: usize = 0;
        while i < self.fields.len()
            invariant
                i <= fs.len(),
                fs == self.fields@,
                m == state_model(*state),
                fields_check(fs, m) == fields_check(fs.skip(i as int), m),
            decreases fs.len() - i,
        {
            let (k, d) = &self.fields[i];
            let value = state.get(k.as_str());
            assert(crate::state::reducer::opt_model(value) == lookup(m, k@));
            proof {
                assert(decreases_to!(*self => self.fields));
                assert(decreases_to!(self.fields => self.fields@[i as int]));
                assert(fs.skip(i as int)[0] == fs[i as int]);
                assert(fs.skip(i as int).drop_first() =~= fs.skip(i + 1));
            }
            match d.validate(value) {
                Ok(()) => {},
                Err(e) => {
                    return Err(e);
                },
            }
            i = i + 1;
        }
        assert(fs.skip(fs.len() as int) =~= Seq::<(String, FieldDefinition)>::empty());
        Ok(())
    }

    /// The state with every missing field that has a default set to it.
    pub fn apply_schema_defaults(&self, state: &StateData) -> (r: Result<StateData, SchemaError>)
        ensures
            r matches Ok(s) && state_model(s) == defaults_applied(self.fields@, state_model(*state)),
    {
        let ghost fs = self.fields@;
        let mut result = clone_state(state);
        assert(fs.skip(0) =~= fs);
        let mut i: usize = 0;
        while i < self.fields.len()
            invariant
                i <= fs.len(),
                fs == self.fields@,
                defaults_applied(fs, state_model(*state)) == defaults_applied(fs.skip(i as int), state_model(result)),
            decreases fs.len() - i,
        {
            let (k, d) = &self.fields[i];
            proof {
                assert(fs.skip(i as int)[0] == fs[i as int]);
                assert(fs.skip(i as int).drop_first() =~= fs.skip(i + 1));
            }
            if !result.contains_key(k.as_str()) {
                match &d.default {
                    Some(v) => {
                        let ghost before = state_model(result);
                        result.insert(copy_key(k), v.deep_clone());
                        assert(state_model(result) =~= before.insert(k@, v@));
                    },
                    None => {},
                }
            }
            i = i + 1;
        }
        assert(fs.skip(fs.len() as int) =~= Seq::<(String, FieldDefinition)>::empty());
        Ok(result)
    }

    /// The definition of field `name`, if any.
    pub fn get_field(&self, name: &str) -> (r: Option<&FieldDefinition>)
        ensures
            match r {
                Some(d) => first_key(self.fields@, name@) >= 0 && *d == self.fields@[first_key(
                    self.fields@,
                    name@,
                )].1,
                None => first_key(self.fields@, name@) < 0,
            },
    {
        match find_key(&self.fields, name) {
            Some(i) => Some(&self.fields[i].1),
            None => None,
        }
    }

    /// The names of the fields, in the order they were added.
    pub fn field_names(&self) -> (v: Vec<String>)
        ensures
            strings_view(v@) == Seq::new(self.fields@.len(), |i: int| self.fields@[i].0@),
    {
        let mut v: Vec<String> = Vec::new();
        let mut i: usize = 0;
        while i < self.fields.len()
            invariant
                i <= self.fields@.len(),
                v@.len() == i,
                forall|j: int| 0 <= j < i ==> (#[trigger] v@[j])@ == self.fields@[j].0@,
            decreases self.fields@.len() - i,
        {
            v.push(copy_key(&self.fields[i].0));
            i = i + 1;
        }
        assert(strings_view(v@) =~= Seq::new(self.fields@.len(), |j: int| self.fields@[j].0@));
        v
    }
}

/// Types that can validate a state and fill in its defaults.
pub trait StateValidator {
    /// Checks the state.
    fn validate_state(&self, state: &StateData) -> LgResult<()>;
    /// The state with its defaults filled in.
    fn apply_defaults(&self, state: &StateData) -> LgResult<StateData>;
}

impl StateValidator for Schema {
    /// The schema's validation, its error wrapped as a library error.
    fn validate_state(&self, state: &StateData) -> (r: LgResult<()>)
        ensures
            (r is Ok) == (fields_check(self.fields@, state_model(*state)) is Ok),
            r matches Err(e) ==> e matches LangGraphError::Schema(se) && Err::<(), SchemaErrorModel>(
                se.model(),
            ) == fields_check(self.fields@, state_model(*state)),
    {
        match self.validate(state) {
            Ok(()) => Ok(()),
            Err(e) => Err(LangGraphError::Schema(e)),
        }
    }

    /// The schema's defaults.
    fn apply_defaults(&self, state: &StateData) -> (r: LgResult<StateData>)
        ensures
            r matches Ok(s) && state_model(s) == defaults_applied(self.fields@, state_model(*state)),
    {
        match self.apply_schema_defaults(state) {
            Ok(s) => Ok(s),
            Err(e) => Err(LangGraphError::Schema(e)),
        }
    }
}

/// Builds a field definition step by step.
#[derive(Debug)]
pub struct FieldDefinitionBuilder {
    pub name: String,
    pub field_type: FieldType,
    pub required: bool,
    pub default: Option<JsonValue>,
    pub min_length: Option<usize>,
    pub max_length: Option<usize>,
    pub min_value: Option<i64>,
    pub max_value: Option<i64>,
    pub validators: Vec<String>,
}

impl FieldDefinitionBuilder {
    /// Starts an optional field with no bounds.
    pub fn new(name: String, field_type: FieldType) -> (b: FieldDefinitionBuilder)
        ensures
            b.name == name,
            b.field_type == field_type,
            !b.required,
            b.default is None,
            b.min_length is None,
            b.max_length is None,
            b.min_value is None,
            b.max_value is None,
            b.validators@.len() == 0,
    {
        FieldDefinitionBuilder {
            name,
            field_type,
            required: false,
            default: None,
            min_length: None,
            max_length: None,
            min_value: None,
            max_value: None,
            validators: Vec::new(),
        }
    }

    /// Makes the field required.
    pub fn required(self) -> (b: FieldDefinitionBuilder)
        ensures
            b == (FieldDefinitionBuilder { required: true, ..self }),
    {
        let mut b = self;
        b.required = true;
        b
    }

    /// Sets the default value.
    pub fn default_value(self, value: JsonValue) -> (b: FieldDefinitionBuilder)
        ensures
            b == (FieldDefinitionBuilder { default: Some(value), ..self }),
    {
        let mut b = self;
        b.default = Some(value);
        b
    }

    /// Sets the minimum length.
    pub fn min_length(self, min: usize) -> (b: FieldDefinitionBuilder)
        ensures
            b == (FieldDefinitionBuilder { min_length: Some(min), ..self }),
    {
        let mut b = self;
        b.min_length = Some(min);
        b
    }

    /// Sets the maximum length.
    pub fn max_length(self, max: usize) -> (b: FieldDefinitionBuilder)
        ensures
            b == (FieldDefinitionBuilder { max_length: Some(max), ..self }),
    {
        let mut b = self;
        b.max_length = Some(max);
        b
    }

    /// Sets the minimum value.
    pub fn min_value(self, min: i64) -> (b: FieldDefinitionBuilder)
        ensures
            b == (FieldDefinitionBuilder { min_value: Some(min), ..self }),
    {
        let mut b = self;
        b.min_value = Some(min);
        b
    }

    /// Sets the maximum value.
    pub fn max_value(self, max: i64) -> (b: FieldDefinitionBuilder)
        ensures
            b == (FieldDefinitionBuilder { max_value: Some(max), ..self }),
    {
        let mut b = self;
        b.max_value = Some(max);
        b
    }

    /// Adds a custom validator's name.
    pub fn validator(self, name: String) -> (b: FieldDefinitionBuilder)
        ensures
            b.validators@ == self.validators@.push(name),
            b.name == self.name,
            b.required == self.required,
    {
        let mut b = self;
        b.validators.push(name);
        b
    }

    /// The definition.
    pub fn build(self) -> (d: FieldDefinition)
        ensures
            d.name == self.name,
            d.field_type == self.field_type,
            d.required == self.required,
            d.default == self.default,
            d.min_length == self.min_length,
            d.max_length == self.max_length,
            d.min_value == self.min_value,
            d.max_value == self.max_value,
            d.validators == self.validators,
    {
        FieldDefinition {
            name: self.name,
            field_type: self.field_type,
            required: self.required,
            default: self.default,
            min_length: self.min_length,
            max_length: self.max_length,
            min_value: self.min_value,
            max_value: self.max_value,
            validators: self.validators,
        }
    }
}

} // verus!
