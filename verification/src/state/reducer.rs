//! Reducers: how a new value for a state field is combined with the one
//! already there.
use vstd::prelude::*;
use crate::json::{JsonValue, JsonModel, models, entry_models, lemma_array_model, lemma_object_model,
    object_find, lemma_object_find, object_insert, copy_string, json_text, json_text_of};
use crate::text::{seq_less, text_less};

verus! {

/// The model of an optional value.
pub open spec fn opt_model(v: Option<&JsonValue>) -> Option<JsonModel> {
    match v {
        Some(x) => Some(x@),
        None => None,
    }
}

/// Combines a field's current value with a new one.
pub trait Reducer {
    /// Whether this reducer can combine these two values.
    spec fn accepts(&self, existing: Option<JsonModel>, new: JsonModel) -> bool;

    /// What the reducer makes of the two values.
    spec fn reduction(&self, existing: Option<JsonModel>, new: JsonModel) -> JsonModel;

    /// The combined value.
    fn reduce(&self, existing: Option<&JsonValue>, new: JsonValue) -> (r: JsonValue)
        requires
            self.accepts(opt_model(existing), new@),
        ensures
            r@ == self.reduction(opt_model(existing), new@),
    ;

    /// Metadata describing the reducer; none by default.
    fn metadata(&self) -> (r: Option<JsonValue>)
        ensures
            r is None,
    {
        None
    }
}

/// Last write wins.
pub struct DefaultReducer;

impl Reducer for DefaultReducer {
    open spec fn reduction(&self, existing: Option<JsonModel>, new: JsonModel) -> JsonModel {
        new
    }

    open spec fn accepts(&self, existing: Option<JsonModel>, new: JsonModel) -> bool {
        true
    }

    fn reduce(&self, existing: Option<&JsonValue>, new: JsonValue) -> (r: JsonValue)
        ensures
            r@ == new@,
    {
        new
    }
}

/// The items that a value contributes to an array: an array its elements,
/// anything else itself.
pub open spec fn spread(m: JsonModel) -> Seq<JsonModel> {
    match m {
        JsonModel::Array(a) => a,
        _ => seq![m],
    }
}

/// What appending `new` to `existing` gives: always an array.
pub open spec fn append_result(existing: Option<JsonModel>, new: JsonModel) -> JsonModel {
    match existing {
        Some(JsonModel::Array(e)) => JsonModel::Array(e + spread(new)),
        Some(other) => JsonModel::Array(seq![other] + spread(new)),
        None => JsonModel::Array(spread(new)),
    }
}

/// Appends to arrays.
pub struct AppendReducer;

impl Reducer for AppendReducer {
    open spec fn reduction(&self, existing: Option<JsonModel>, new: JsonModel) -> JsonModel {
        append_result(existing, new)
    }

    open spec fn accepts(&self, existing: Option<JsonModel>, new: JsonModel) -> bool {
        true
    }

    fn reduce(&self, existing: Option<&JsonValue>, new: JsonValue) -> (r: JsonValue)
        ensures
            r@ == append_result(opt_model(existing), new@),
    {
        let mut result: Vec<JsonValue> = match existing {
            Some(e) => {
                let c = e.deep_clone();
                match c {
                    JsonValue::Array(v) => {
                        proof {
                            lemma_array_model(v);
                        }
                        v
                    },
                    other => {
                        let v = vec![other];
                        assert(models(v@) =~= seq![e@]);
                        v
                    },
                }
            },
            None => {
                let v: Vec<JsonValue> = Vec::new();
                assert(models(v@) =~= Seq::<JsonModel>::empty());
                v
            },
        };
        let ghost before = models(result@);
        match new {
            JsonValue::Array(mut arr) => {
                proof {
                    lemma_array_model(arr);
                }
                let ghost added = models(arr@);
                result.append(&mut arr);
                assert(models(result@) =~= before + added);
            },
            other => {
                let ghost m = other@;
                result.push(other);
                assert(models(result@) =~= before + seq![m]);
            },
        }
        proof {
            lemma_array_model(result);
            match opt_model(existing) {
                Some(JsonModel::Array(e)) => {},
                Some(o) => {},
                None => {
                    assert(before + spread(new@) =~= spread(new@));
                },
            }
        }
        JsonValue::Array(result)
    }
}

/// The position of the first entry with key `k` in a sequence of entry
/// models, or -1.
pub open spec fn model_find(s: Seq<(Seq<char>, JsonModel)>, k: Seq<char>) -> int
    decreases s.len(),
{
    if s.len() == 0 {
        -1
    } else {
        let r = model_find(s.drop_last(), k);
        if r >= 0 {
            r
        } else if s.last().0 == k {
            s.len() - 1
        } else {
            -1
        }
    }
}

/// Setting key `k` to `v`: the first entry with that key takes the value in
/// place; a new key goes last.
pub open spec fn entries_set(s: Seq<(Seq<char>, JsonModel)>, k: Seq<char>, v: JsonModel) -> Seq<
    (Seq<char>, JsonModel),
> {
    if model_find(s, k) >= 0 {
        s.update(model_find(s, k), (k, v))
    } else {
        s.push((k, v))
    }
}

/// Sets each entry of `n`, in order, into `e`.
pub open spec fn merge_entries(e: Seq<(Seq<char>, JsonModel)>, n: Seq<(Seq<char>, JsonModel)>) -> Seq<
    (Seq<char>, JsonModel),
>
    decreases n.len(),
{
    if n.len() == 0 {
        e
    } else {
        let l = n.last();
        entries_set(merge_entries(e, n.drop_last()), l.0, l.1)
    }
}

/// What merging `new` into `existing` gives: two objects merge key by key,
/// otherwise the new value wins.
pub open spec fn merge_result(existing: Option<JsonModel>, new: JsonModel) -> JsonModel {
    match (existing, new) {
        (Some(JsonModel::Object(e)), JsonModel::Object(n)) => JsonModel::Object(merge_entries(e, n)),
        _ => new,
    }
}

/// Finding a key among entries and among their models agree.
pub proof fn lemma_find_models(o: Seq<(String, JsonValue)>, k: Seq<char>)
    ensures
        object_find(o, k) == model_find(entry_models(o), k),
    decreases o.len(),
{
    if o.len() > 0 {
        lemma_find_models(o.drop_last(), k);
        assert(entry_models(o.drop_last()) =~= entry_models(o).drop_last());
    }
}

/// Deep-merges objects.
pub struct MergeReducer;

impl Reducer for MergeReducer {
    open spec fn reduction(&self, existing: Option<JsonModel>, new: JsonModel) -> JsonModel {
        merge_result(existing, new)
    }

    open spec fn accepts(&self, existing: Option<JsonModel>, new: JsonModel) -> bool {
        true
    }

    fn reduce(&self, existing: Option<&JsonValue>, new: JsonValue) -> (r: JsonValue)
        ensures
            r@ == merge_result(opt_model(existing), new@),
    {
        match existing {
            Some(ev) => match (ev, &new) {
                (JsonValue::Object(e), JsonValue::Object(n)) => {
                    let c = ev.deep_clone();
                    let mut out: Vec<(String, JsonValue)> = match c {
                        JsonValue::Object(v) => v,
                        _ => Vec::new(),
                    };
                    proof {
                        lemma_object_model(*e);
                        lemma_object_model(*n);
                    }
                    proof {
                        lemma_object_model(out);
                    }
                    let ghost em = entry_models(e@);
                    let ghost nm = entry_models(n@);
                    assert(entry_models(out@) == em);
                    let mut i: usize = 0;
                    while i < n.len()
                        invariant
                            i <= n@.len(),
                            nm == entry_models(n@),
                            entry_models(out@) == merge_entries(em, nm.take(i as int)),
                        decreases n@.len() - i,
                    {
                        let k = copy_string(&n[i].0);
                        let v = n[i].1.deep_clone();
                        let ghost before = out@;
                        proof {
                            lemma_find_models(before, k@);
                            lemma_object_find(before, k@);
                        }
                        object_insert(&mut out, k, v);
                        proof {
                            assert(nm.take(i + 1).drop_last() =~= nm.take(i as int));
                            assert(nm.take(i + 1).last() == (k@, v@));
                            if object_find(before, k@) >= 0 {
                                assert(entry_models(out@) =~= entry_models(before).update(
                                    object_find(before, k@),
                                    (k@, v@),
                                ));
                            } else {
                                assert(entry_models(out@) =~= entry_models(before).push((k@, v@)));
                            }
                        }
                        i = i + 1;
                    }
                    proof {
                        assert(nm.take(n@.len() as int) =~= nm);
                        lemma_object_model(out);
                    }
                    JsonValue::Object(out)
                },
                _ => new,
            },
            None => new,
        }
    }
}

/// Whether adding two numbers stays within the range of a 64-bit integer.
pub open spec fn sum_fits(existing: Option<JsonModel>, new: JsonModel) -> bool {
    match (existing, new) {
        (Some(JsonModel::Number(e)), JsonModel::Number(n)) => i64::MIN <= e + n <= i64::MAX,
        _ => true,
    }
}

/// What adding gives: two numbers add up, otherwise the new value wins.
pub open spec fn add_result(existing: Option<JsonModel>, new: JsonModel) -> JsonModel {
    match (existing, new) {
        (Some(JsonModel::Number(e)), JsonModel::Number(n)) => JsonModel::Number(e + n),
        _ => new,
    }
}

/// Adds numeric values.
pub struct AddReducer;

impl Reducer for AddReducer {
    open spec fn reduction(&self, existing: Option<JsonModel>, new: JsonModel) -> JsonModel {
        add_result(existing, new)
    }

    open spec fn accepts(&self, existing: Option<JsonModel>, new: JsonModel) -> bool {
        sum_fits(existing, new)
    }

    fn reduce(&self, existing: Option<&JsonValue>, new: JsonValue) -> (r: JsonValue)
        ensures
            r@ == add_result(opt_model(existing), new@),
    {
        match (existing, &new) {
            (Some(JsonValue::Number(e)), JsonValue::Number(n)) => JsonValue::Number(*e + *n),
            _ => new,
        }
    }
}

/// What keeping the larger value gives: the larger of two numbers;
/// otherwise the value whose serde_json text is greater, the new one on a tie.
pub open spec fn max_result(existing: Option<JsonModel>, new: JsonModel) -> JsonModel {
    match (existing, new) {
        (Some(JsonModel::Number(e)), JsonModel::Number(n)) => JsonModel::Number(
            if e >= n {
                e
            } else {
                n
            },
        ),
        (Some(e), _) => if seq_less(json_text(new), json_text(e)) {
            e
        } else {
            new
        },
        (None, _) => new,
    }
}

/// What keeping the smaller value gives: the smaller of two numbers;
/// otherwise the value whose serde_json text is smaller, the new one on a tie.
pub open spec fn min_result(existing: Option<JsonModel>, new: JsonModel) -> JsonModel {
    match (existing, new) {
        (Some(JsonModel::Number(e)), JsonModel::Number(n)) => JsonModel::Number(
            if e <= n {
                e
            } else {
                n
            },
        ),
        (Some(e), _) => if seq_less(json_text(e), json_text(new)) {
            e
        } else {
            new
        },
        (None, _) => new,
    }
}

/// Of two numbers, keeping the larger gives one of them, at least as large
/// as each; keeping the smaller gives one of them, at most as large as
/// each.
pub proof fn lemma_max_min_of_numbers(e: int, n: int)
    ensures
        match max_result(Some(JsonModel::Number(e)), JsonModel::Number(n)) {
            JsonModel::Number(r) => r >= e && r >= n && (r == e || r == n),
            _ => false,
        },
        match min_result(Some(JsonModel::Number(e)), JsonModel::Number(n)) {
            JsonModel::Number(r) => r <= e && r <= n && (r == e || r == n),
            _ => false,
        },
{
}

/// Keeps the maximum value.
pub struct MaxReducer;

impl Reducer for MaxReducer {
    open spec fn reduction(&self, existing: Option<JsonModel>, new: JsonModel) -> JsonModel {
        max_result(existing, new)
    }

    open spec fn accepts(&self, existing: Option<JsonModel>, new: JsonModel) -> bool {
        true
    }

    fn reduce(&self, existing: Option<&JsonValue>, new: JsonValue) -> (r: JsonValue)
        ensures
            r@ == max_result(opt_model(existing), new@),
    {
        match existing {
            Some(ev) => match (ev, &new) {
                (JsonValue::Number(e), JsonValue::Number(n)) => JsonValue::Number(
                    if *e >= *n {
                        *e
                    } else {
                        *n
                    },
                ),
                _ => {
                    let te = json_text_of(ev);
                    let tn = json_text_of(&new);
                    if text_less(tn.as_str(), te.as_str()) {
                        ev.deep_clone()
                    } else {
                        new
                    }
                },
            },
            None => new,
        }
    }
}

/// Keeps the minimum value.
pub struct MinReducer;

impl Reducer for MinReducer {
    open spec fn reduction(&self, existing: Option<JsonModel>, new: JsonModel) -> JsonModel {
        min_result(existing, new)
    }

    open spec fn accepts(&self, existing: Option<JsonModel>, new: JsonModel) -> bool {
        true
    }

    fn reduce(&self, existing: Option<&JsonValue>, new: JsonValue) -> (r: JsonValue)
        ensures
            r@ == min_result(opt_model(existing), new@),
    {
        match existing {
            Some(ev) => match (ev, &new) {
                (JsonValue::Number(e), JsonValue::Number(n)) => JsonValue::Number(
                    if *e <= *n {
                        *e
                    } else {
                        *n
                    },
                ),
                _ => {
                    let te = json_text_of(ev);
                    let tn = json_text_of(&new);
                    if text_less(te.as_str(), tn.as_str()) {
                        ev.deep_clone()
                    } else {
                        new
                    }
                },
            },
            None => new,
        }
    }
}


/// What appending gives where a value that is not an array is replaced
/// rather than wrapped: arrays and absent values take the new items, any
/// other value gives way to the new one.
pub open spec fn append_or_replace_result(existing: Option<JsonModel>, new: JsonModel) -> JsonModel {
    match existing {
        Some(JsonModel::Array(_)) | None => append_result(existing, new),
        Some(_) => new,
    }
}

/// Appends `new` (its items, when it is an array) to an existing array or
/// to nothing; a value that is not an array gives way to `new`.
pub fn append_or_replace(existing: Option<&JsonValue>, new: JsonValue) -> (r: JsonValue)
    ensures
        r@ == append_or_replace_result(opt_model(existing), new@),
{
    match existing {
        Some(JsonValue::Array(_)) | None => AppendReducer.reduce(existing, new),
        Some(_) => new,
    }
}

/// What merging one level deep gives: two objects give the existing
/// entries with each new entry set in turn; otherwise the new value.
pub open spec fn shallow_merge_result(existing: Option<JsonModel>, new: JsonModel) -> JsonModel {
    match (existing, new) {
        (Some(JsonModel::Object(e)), JsonModel::Object(n)) => JsonModel::Object(
            crate::state::advanced::object_overlay(e, n),
        ),
        _ => new,
    }
}

/// Sets each entry of a new object on a copy of an existing one; otherwise
/// the new value.
pub fn shallow_merge(existing: Option<&JsonValue>, new: JsonValue) -> (r: JsonValue)
    ensures
        r@ == shallow_merge_result(opt_model(existing), new@),
{
    match (existing, &new) {
        (Some(JsonValue::Object(e)), JsonValue::Object(n)) => {
            proof {
                lemma_object_model(*e);
                lemma_object_model(*n);
            }
            let u = crate::state::advanced::overlay_objects(e, n);
            proof {
                lemma_object_model(u);
            }
            JsonValue::Object(u)
        },
        _ => {
            proof {
                if opt_model(existing) matches Some(JsonModel::Object(_)) && new@ is Object {
                    assert(false);
                }
            }
            new
        },
    }
}

} // verus!
