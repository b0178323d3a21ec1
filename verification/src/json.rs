//! JSON values as they flow through graph state.
//!
//! Numbers are held as 64-bit integers; fractional numbers are not part of
//! this model.
use vstd::prelude::*;

verus! {

broadcast use {vstd::std_specs::vec::axiom_vec_decreases_to_view, vstd::std_specs::vec::axiom_vec_index_decreases};

/// The mathematical meaning of a JSON value.
pub enum JsonModel {
    Null,
    Bool(bool),
    Number(int),
    Str(Seq<char>),
    Array(Seq<JsonModel>),
    Object(Seq<(Seq<char>, JsonModel)>),
}

/// A JSON value.
#[derive(Debug, PartialEq)]
pub enum JsonValue {
    Null,
    Bool(bool),
    Number(i64),
    String(String),
    Array(Vec<JsonValue>),
    Object(Vec<(String, JsonValue)>),
}

impl JsonValue {
    /// The mathematical meaning of this value.
    pub open spec fn model(&self) -> JsonModel
        decreases self,
    {
        match self {
            JsonValue::Null => JsonModel::Null,
            JsonValue::Bool(b) => JsonModel::Bool(*b),
            JsonValue::Number(n) => JsonModel::Number(*n as int),
            JsonValue::String(s) => JsonModel::Str(s@),
            JsonValue::Array(a) => JsonModel::Array(
                Seq::new(
                    a@.len(),
                    |i: int|
                        if 0 <= i < a@.len() {
                            a@[i].model()
                        } else {
                            JsonModel::Null
                        },
                ),
            ),
            JsonValue::Object(o) => JsonModel::Object(
                Seq::new(
                    o@.len(),
                    |i: int|
                        if 0 <= i < o@.len() {
                            (o@[i].0@, o@[i].1.model())
                        } else {
                            (Seq::empty(), JsonModel::Null)
                        },
                ),
            ),
        }
    }
}

impl View for JsonValue {
    type V = JsonModel;

    open spec fn view(&self) -> JsonModel {
        self.model()
    }
}

/// The models of a sequence of values.
pub open spec fn models(s: Seq<JsonValue>) -> Seq<JsonModel> {
    Seq::new(s.len(), |i: int| s[i]@)
}

/// The models of a sequence of object entries.
pub open spec fn entry_models(s: Seq<(String, JsonValue)>) -> Seq<(Seq<char>, JsonModel)> {
    Seq::new(s.len(), |i: int| (s[i].0@, s[i].1@))
}

/// A value is truthy when it is `true`, a non-zero number, or a non-empty
/// string, array or object.
pub open spec fn is_truthy(m: JsonModel) -> bool {
    match m {
        JsonModel::Null => false,
        JsonModel::Bool(b) => b,
        JsonModel::Number(n) => n != 0,
        JsonModel::Str(s) => s.len() > 0,
        JsonModel::Array(a) => a.len() > 0,
        JsonModel::Object(o) => o.len() > 0,
    }
}

/// Array values carry the models of their elements.
pub proof fn lemma_array_model(a: Vec<JsonValue>)
    ensures
        JsonValue::Array(a)@ == JsonModel::Array(models(a@)),
{
    let m = JsonValue::Array(a).model();
    assert(m->Array_0 =~= models(a@));
}

/// Object values carry the models of their entries.
pub proof fn lemma_object_model(o: Vec<(String, JsonValue)>)
    ensures
        JsonValue::Object(o)@ == JsonModel::Object(entry_models(o@)),
{
    let m = JsonValue::Object(o).model();
    assert(m->Object_0 =~= entry_models(o@));
}

/// The position of the first entry with key `k`, or -1.
pub open spec fn object_find(s: Seq<(String, JsonValue)>, k: Seq<char>) -> int
    decreases s.len(),
{
    if s.len() == 0 {
        -1
    } else {
        let r = object_find(s.drop_last(), k);
        if r >= 0 {
            r
        } else if s.last().0@ == k {
            s.len() - 1
        } else {
            -1
        }
    }
}

/// `object_find` gives -1 or the first position holding the key.
pub proof fn lemma_object_find(s: Seq<(String, JsonValue)>, k: Seq<char>)
    ensures
        -1 <= object_find(s, k) < s.len(),
        object_find(s, k) >= 0 ==> s[object_find(s, k)].0@ == k,
        forall|j: int| 0 <= j < s.len() && (object_find(s, k) < 0 || j < object_find(s, k))
            ==> (#[trigger] s[j]).0@ != k,
    decreases s.len(),
{
    if s.len() > 0 {
        let d = s.drop_last();
        lemma_object_find(d, k);
        assert forall|j: int| 0 <= j < s.len() && (object_find(s, k) < 0 || j < object_find(s, k))
            implies (#[trigger] s[j]).0@ != k by {
            if j < d.len() {
                assert(d[j] == s[j]);
            }
        }
    }
}

/// Sets key `k` of an object's entries to `v`: the first entry with that key
/// is replaced in place; a new key goes last.
pub fn object_insert(o: &mut Vec<(String, JsonValue)>, k: String, v: JsonValue)
    ensures
        object_find(old(o)@, k@) >= 0 ==> final(o)@ == old(o)@.update(object_find(old(o)@, k@), (k, v)),
        object_find(old(o)@, k@) < 0 ==> final(o)@ == old(o)@.push((k, v)),
{
    proof {
        lemma_object_find(o@, k@);
    }
    let mut i: usize = 0;
    while i < o.len()
        invariant
            i <= o@.len(),
            o@ == old(o)@,
            forall|j: int| 0 <= j < i ==> (#[trigger] o@[j]).0@ != k@,
            -1 <= object_find(o@, k@) < o@.len(),
            object_find(o@, k@) >= 0 ==> o@[object_find(o@, k@)].0@ == k@,
            forall|j: int| 0 <= j < o@.len() && (object_find(o@, k@) < 0 || j < object_find(o@, k@))
                ==> (#[trigger] o@[j]).0@ != k@,
        decreases o@.len() - i,
    {
        if o[i].0 == k {
            assert(object_find(o@, k@) == i);
            o.set(i, (k, v));
            return;
        }
        i = i + 1;
    }
    assert(object_find(o@, k@) < 0);
    o.push((k, v));
}

/// serde_json's dynamically typed JSON value.
#[verifier::external_type_specification]
#[verifier::external_body]
pub struct ExSerdeValue(serde_json::Value);

/// The text that serde_json writes for a value: the compact form that its
/// `Display` gives.
pub uninterp spec fn json_text(v: JsonModel) -> Seq<char>;

/// serde_json's value for `v`: each variant becomes its counterpart, fields
/// converted in turn.  Nothing is stated of it.
#[verifier::external_body]
pub(crate) fn serde_value(v: &JsonValue) -> serde_json::Value {
    match v {
        JsonValue::Null => serde_json::Value::Null,
        JsonValue::Bool(b) => serde_json::Value::Bool(*b),
        JsonValue::Number(n) => serde_json::Value::from(*n),
        JsonValue::String(s) => serde_json::Value::String(s.clone()),
        JsonValue::Array(a) => serde_json::Value::Array(a.iter().map(serde_value).collect()),
        JsonValue::Object(o) => serde_json::Value::Object(
            o.iter().map(|(k, x)| (k.clone(), serde_value(x))).collect(),
        ),
    }
}

/// serde_json's text of a value: `Value::to_string`, which writes the
/// compact JSON text through `Display`.  The contract names the result
/// `json_text` of the value's model and says nothing more of it.
#[verifier::external_body]
pub(crate) fn json_text_of(v: &JsonValue) -> (s: String)
    ensures
        s@ == json_text(v@),
{
    serde_value(v).to_string()
}

/// The value for serde_json's `v`, each variant its counterpart; none
/// where a number is not a 64-bit signed integer. Nothing is stated of it.
#[verifier::external_body]
pub(crate) fn from_serde_value(v: &serde_json::Value) -> Option<JsonValue> {
    match v {
        serde_json::Value::Null => Some(JsonValue::Null),
        serde_json::Value::Bool(b) => Some(JsonValue::Bool(*b)),
        serde_json::Value::Number(n) => n.as_i64().map(JsonValue::Number),
        serde_json::Value::String(s) => Some(JsonValue::String(s.clone())),
        serde_json::Value::Array(a) => a.iter().map(from_serde_value).collect::<Option<Vec<_>>>().map(JsonValue::Array),
        serde_json::Value::Object(o) => o
            .iter()
            .map(|(k, x)| from_serde_value(x).map(|y| (k.clone(), y)))
            .collect::<Option<Vec<_>>>()
            .map(JsonValue::Object),
    }
}

/// How serde_json writes a value with `to_string_pretty`: indented, one
/// entry per line.
pub uninterp spec fn json_pretty_text(v: JsonModel) -> Seq<char>;

/// `serde_json::to_string_pretty` of the serde_json value for `v`, which
/// cannot fail for a value; the contract names the text and says nothing
/// more of it.
#[verifier::external_body]
pub(crate) fn json_pretty_of(v: &JsonValue) -> (s: String)
    ensures
        s@ == json_pretty_text(v@),
{
    match serde_json::to_string_pretty(&serde_value(v)) {
        Ok(s) => s,
        Err(_) => String::new(),
    }
}

/// Copies a string, keeping its characters.
pub fn copy_string(s: &String) -> (r: String)
    ensures
        r@ == s@,
{
    s.clone()
}

impl JsonValue {
    /// A copy of this value with the same meaning.
    #[verifier::loop_isolation(false)]
    pub fn deep_clone(&self) -> (r: JsonValue)
        ensures
            r@ == self@,
        decreases self,
    {
        match self {
            JsonValue::Null => JsonValue::Null,
            JsonValue::Bool(b) => JsonValue::Bool(*b),
            JsonValue::Number(n) => JsonValue::Number(*n),
            JsonValue::String(s) => JsonValue::String(copy_string(s)),
            JsonValue::Array(a) => {
                let mut out: Vec<JsonValue> = Vec::new();
                let mut i: usize = 0;
                while i < a.len()
                    invariant
                        i <= a@.len(),
                        out@.len() == i,
                        forall|j: int| 0 <= j < i ==> out@[j]@ == a@[j]@,
                    decreases a@.len() - i,
                {
                    proof {
                        assert(decreases_to!(*a => a[i as int]));
                    }
                    let c = a[i].deep_clone();
                    out.push(c);
                    i = i + 1;
                }
                proof {
                    lemma_array_model(*a);
                    lemma_array_model(out);
                    assert(models(out@) =~= models(a@));
                }
                JsonValue::Array(out)
            },
            JsonValue::Object(o) => {
                let mut out: Vec<(String, JsonValue)> = Vec::new();
                let mut i: usize = 0;
                while i < o.len()
                    invariant
                        i <= o@.len(),
                        out@.len() == i,
                        forall|j: int|
                            0 <= j < i ==> out@[j].0@ == o@[j].0@ && out@[j].1@ == o@[j].1@,
                    decreases o@.len() - i,
                {
                    let k = copy_string(&o[i].0);
                    proof {
                        assert(decreases_to!(*o => o[i as int]));
                    }
                    let c = o[i].1.deep_clone();
                    out.push((k, c));
                    i = i + 1;
                }
                proof {
                    lemma_object_model(*o);
                    lemma_object_model(out);
                    assert(entry_models(out@) =~= entry_models(o@));
                }
                JsonValue::Object(out)
            },
        }
    }

    /// Whether two values have the same meaning.
    #[verifier::loop_isolation(false)]
    pub fn deep_eq(&self, other: &JsonValue) -> (r: bool)
        ensures
            r == (self@ == other@),
        decreases self,
    {
        match (self, other) {
            (JsonValue::Null, JsonValue::Null) => true,
            (JsonValue::Bool(a), JsonValue::Bool(b)) => *a == *b,
            (JsonValue::Number(a), JsonValue::Number(b)) => *a == *b,
            (JsonValue::String(a), JsonValue::String(b)) => *a == *b,
            (JsonValue::Array(a), JsonValue::Array(b)) => {
                proof {
                    lemma_array_model(*a);
                    lemma_array_model(*b);
                }
                if a.len() != b.len() {
                    assert(models(a@).len() != models(b@).len());
                    return false;
                }
                let mut i: usize = 0;
                while i < a.len()
                    invariant
                        i <= a@.len(),
                        a@.len() == b@.len(),
                        forall|j: int| 0 <= j < i ==> a@[j]@ == b@[j]@,
                    decreases a@.len() - i,
                {
                    proof {
                        assert(decreases_to!(*a => a[i as int]));
                    }
                    if !a[i].deep_eq(&b[i]) {
                        assert(models(a@)[i as int] != models(b@)[i as int]);
                        return false;
                    }
                    i = i + 1;
                }
                assert(models(a@) =~= models(b@));
                true
            },
            (JsonValue::Object(a), JsonValue::Object(b)) => {
                proof {
                    lemma_object_model(*a);
                    lemma_object_model(*b);
                }
                if a.len() != b.len() {
                    assert(entry_models(a@).len() != entry_models(b@).len());
                    return false;
                }
                let mut i: usize = 0;
                while i < a.len()
                    invariant
                        i <= a@.len(),
                        a@.len() == b@.len(),
                        forall|j: int| 0 <= j < i ==> a@[j].0@ == b@[j].0@ && a@[j].1@ == b@[j].1@,
                    decreases a@.len() - i,
                {
                    if a[i].0 != b[i].0 {
                        assert(entry_models(a@)[i as int] != entry_models(b@)[i as int]);
                        return false;
                    }
                    proof {
                        assert(decreases_to!(*a => a[i as int]));
                    }
                    if !a[i].1.deep_eq(&b[i].1) {
                        assert(entry_models(a@)[i as int] != entry_models(b@)[i as int]);
                        return false;
                    }
                    i = i + 1;
                }
                assert(entry_models(a@) =~= entry_models(b@));
                true
            },
            _ => false,
        }
    }

    /// Whether this value is truthy.
    pub fn truthy(&self) -> (r: bool)
        ensures
            r == is_truthy(self@),
    {
        match self {
            JsonValue::Null => false,
            JsonValue::Bool(b) => *b,
            JsonValue::Number(n) => *n != 0,
            JsonValue::String(s) => {
                let e = String::new();
                let same = *s == e;
                proof {
                    if s@.len() == 0 {
                        assert(s@ =~= e@);
                    }
                }
                !same
            },
            JsonValue::Array(a) => {
                proof {
                    lemma_array_model(*a);
                }
                a.len() > 0
            },
            JsonValue::Object(o) => {
                proof {
                    lemma_object_model(*o);
                }
                o.len() > 0
            },
        }
    }
}

/// A copy of a vector of values with the same models.
pub fn clone_values(a: &Vec<JsonValue>) -> (out: Vec<JsonValue>)
    ensures
        models(out@) == models(a@),
{
    let mut out: Vec<JsonValue> = Vec::new();
    let mut i: usize = 0;
    while i < a.len()
        invariant
            i <= a@.len(),
            out@.len() == i,
            forall|j: int| 0 <= j < i ==> out@[j]@ == a@[j]@,
        decreases a@.len() - i,
    {
        let c = a[i].deep_clone();
        out.push(c);
        i = i + 1;
    }
    assert(models(out@) =~= models(a@));
    out
}

/// A copy of a vector of object entries with the same models.
pub fn clone_entries(o: &Vec<(String, JsonValue)>) -> (out: Vec<(String, JsonValue)>)
    ensures
        entry_models(out@) == entry_models(o@),
{
    let mut out: Vec<(String, JsonValue)> = Vec::new();
    let mut i: usize = 0;
    while i < o.len()
        invariant
            i <= o@.len(),
            out@.len() == i,
            forall|j: int| 0 <= j < i ==> out@[j].0@ == o@[j].0@ && out@[j].1@ == o@[j].1@,
        decreases o@.len() - i,
    {
        let k = copy_string(&o[i].0);
        let c = o[i].1.deep_clone();
        out.push((k, c));
        i = i + 1;
    }
    assert(entry_models(out@) =~= entry_models(o@));
    out
}

} // verus!
