//! The value tree: a closed tagged union of the six value kinds, with typed
//! extraction.

use vstd::prelude::*;

verus! {

/// The mathematical model of a [`Value`]: an object is a map from key to
/// model (insertion order is not significant and keys are unique), an array
/// is a sequence of models, and the scalars carry their payload as plain
/// mathematical values.
pub enum ValueModel {
    Object(Map<Seq<char>, ValueModel>),
    Array(Seq<ValueModel>),
    String(Seq<char>),
    Number(Seq<char>),
    Bool(bool),
    Null,
}

/// One node of the parsed value tree.
///
/// An object holds its fields in insertion order; the parser never produces
/// two fields with the same key (see [`value_wf`]).  A number carries the run
/// of digits (with at most one decimal point) exactly as it stood in the
/// source text.
#[derive(Debug, PartialEq)]
pub enum Value {
    Object(Vec<(String, Value)>),
    Array(Vec<Value>),
    String(String),
    Number(String),
    Bool(bool),
    Null,
}

/// The map that a sequence of fields denotes: a later field with the same key
/// overwrites an earlier one.
pub open spec fn object_model(fields: Seq<(String, Value)>) -> Map<Seq<char>, ValueModel>
    decreases fields,
{
    if fields.len() == 0 {
        Map::empty()
    } else {
        object_model(fields.drop_last()).insert(fields.last().0@, value_model(fields.last().1))
    }
}

/// The sequence of models that a sequence of array elements denotes.
pub open spec fn array_model(items: Seq<Value>) -> Seq<ValueModel>
    decreases items,
{
    if items.len() == 0 {
        Seq::empty()
    } else {
        array_model(items.drop_last()).push(value_model(items.last()))
    }
}

/// The model of one value.
pub open spec fn value_model(v: Value) -> ValueModel
    decreases v,
{
    match v {
        Value::Object(fields) => ValueModel::Object(object_model(fields@)),
        Value::Array(items) => ValueModel::Array(array_model(items@)),
        Value::String(text) => ValueModel::String(text@),
        Value::Number(text) => ValueModel::Number(text@),
        Value::Bool(b) => ValueModel::Bool(b),
        Value::Null => ValueModel::Null,
    }
}

impl View for Value {
    type V = ValueModel;

    open spec fn view(&self) -> ValueModel {
        value_model(*self)
    }
}

/// No two fields carry the same key.
pub open spec fn distinct_keys(fields: Seq<(String, Value)>) -> bool {
    forall|i: int, j: int| 0 <= i < j < fields.len() ==> fields[i].0@ != fields[j].0@
}

/// Well-formedness of a value tree: no object in it, at any depth, contains
/// two fields with the same key.
pub open spec fn value_wf(v: Value) -> bool
    decreases v,
{
    match v {
        Value::Object(fields) => {
            &&& distinct_keys(fields@)
            &&& forall|i: int| 0 <= i < fields@.len() ==> value_wf(#[trigger] fields@[i].1)
        },
        Value::Array(items) => forall|i: int| 0 <= i < items@.len() ==> value_wf(#[trigger] items@[i]),
        _ => true,
    }
}

/// The failure of a typed extraction: the value's tag did not match the
/// requested kind.
#[derive(Debug, PartialEq)]
pub enum AccessError {
    NotAnObject,
    NotAnArray,
    NotAString,
    NotANumber,
    NotABool,
}

impl Value {
    /// The fields of an object; any other tag fails.
    pub fn get_obj(self) -> (r: Result<Vec<(String, Value)>, AccessError>)
        ensures
            match self {
                Value::Object(fields) => r == Ok::<Vec<(String, Value)>, AccessError>(fields),
                _ => r == Err::<Vec<(String, Value)>, AccessError>(AccessError::NotAnObject),
            },
    {
        if let Value::Object(fields) = self {
            return Ok(fields);
        }
        Err(AccessError::NotAnObject)
    }

    /// The elements of an array; any other tag fails.
    pub fn get_arr(self) -> (r: Result<Vec<Value>, AccessError>)
        ensures
            match self {
                Value::Array(items) => r == Ok::<Vec<Value>, AccessError>(items),
                _ => r == Err::<Vec<Value>, AccessError>(AccessError::NotAnArray),
            },
    {
        if let Value::Array(items) = self {
            return Ok(items);
        }
        Err(AccessError::NotAnArray)
    }

    /// The text of a string value; any other tag fails.
    pub fn get_str(self) -> (r: Result<String, AccessError>)
        ensures
            match self {
                Value::String(text) => r == Ok::<String, AccessError>(text),
                _ => r == Err::<String, AccessError>(AccessError::NotAString),
            },
    {
        if let Value::String(text) = self {
            return Ok(text);
        }
        Err(AccessError::NotAString)
    }

    /// The literal text of a number value, exactly as it stood in the source;
    /// any other tag fails.
    pub fn get_num(self) -> (r: Result<String, AccessError>)
        ensures
            match self {
                Value::Number(text) => r == Ok::<String, AccessError>(text),
                _ => r == Err::<String, AccessError>(AccessError::NotANumber),
            },
    {
        if let Value::Number(text) = self {
            return Ok(text);
        }
        Err(AccessError::NotANumber)
    }

    /// The payload of a boolean value; any other tag fails.
    pub fn get_bool(self) -> (r: Result<bool, AccessError>)
        ensures
            match self {
                Value::Bool(b) => r == Ok::<bool, AccessError>(b),
                _ => r == Err::<bool, AccessError>(AccessError::NotABool),
            },
    {
        if let Value::Bool(b) = self {
            return Ok(b);
        }
        Err(AccessError::NotABool)
    }

    /// Whether the value is the null value.
    pub fn is_null(&self) -> (r: bool)
        ensures
            r <==> self is Null,
    {
        if let Value::Null = self {
            return true;
        }
        false
    }
}

/// Appending an element appends its model.
pub proof fn lemma_array_model_push(s: Seq<Value>, v: Value)
    ensures
        array_model(s.push(v)) == array_model(s).push(value_model(v)),
{
    assert(s.push(v).drop_last() =~= s);
}

/// Two field sequences whose keys and field models agree pairwise denote the
/// same map.
proof fn lemma_object_model_congruent(a: Seq<(String, Value)>, b: Seq<(String, Value)>)
    requires
        a.len() == b.len(),
        forall|i: int| 0 <= i < a.len() ==> (#[trigger] a[i]).0@ == b[i].0@ && value_model(
            a[i].1,
        ) == value_model(b[i].1),
    ensures
        object_model(a) == object_model(b),
    decreases a.len(),
{
    if a.len() > 0 {
        lemma_object_model_congruent(a.drop_last(), b.drop_last());
    }
}

/// Two element sequences whose models agree pairwise denote the same
/// sequence of models.
proof fn lemma_array_model_congruent(a: Seq<Value>, b: Seq<Value>)
    requires
        a.len() == b.len(),
        forall|i: int| 0 <= i < a.len() ==> value_model(#[trigger] a[i]) == value_model(b[i]),
    ensures
        array_model(a) == array_model(b),
    decreases a.len(),
{
    if a.len() > 0 {
        lemma_array_model_congruent(a.drop_last(), b.drop_last());
    }
}

impl Clone for Value {
    /// A clone denotes the same model, and cloning keeps well-formedness.
    fn clone(&self) -> (res: Value)
        ensures
            res@ == self@,
            value_wf(*self) ==> value_wf(res),
        decreases *self,
    {
        match self {
            Value::Object(fields) => {
                let mut out: Vec<(String, Value)> = Vec::new();
                let mut k: usize = 0;
                while k < fields.len()
                    invariant
                        *self == Value::Object(*fields),
                        k <= fields@.len(),
                        out@.len() == k,
                        forall|i: int| 0 <= i < k ==> (#[trigger] out@[i]).0@ == fields@[i].0@
                            && value_model(out@[i].1) == value_model(fields@[i].1) && (value_wf(
                            fields@[i].1,
                        ) ==> value_wf(out@[i].1)),
                    decreases fields@.len() - k,
                {
                    proof {
                        assert(decreases_to!(*self => self->Object_0));
                        assert(decreases_to!(self->Object_0 => self->Object_0@));
                        assert(decreases_to!(self->Object_0@ => self->Object_0@[k as int]));
                        assert(decreases_to!(self->Object_0@[k as int] => self->Object_0@[k as int].1));
                        assert(decreases_to!(*self => fields@[k as int].1));
                    }
                    let key = fields[k].0.clone();
                    let val = fields[k].1.clone();
                    out.push((key, val));
                    k = k + 1;
                }
                proof {
                    lemma_object_model_congruent(out@, fields@);
                }
                Value::Object(out)
            },
            Value::Array(items) => {
                let mut out: Vec<Value> = Vec::new();
                let mut k: usize = 0;
                while k < items.len()
                    invariant
                        *self == Value::Array(*items),
                        k <= items@.len(),
                        out@.len() == k,
                        forall|i: int| 0 <= i < k ==> value_model(#[trigger] out@[i]) == value_model(
                            items@[i],
                        ) && (value_wf(items@[i]) ==> value_wf(out@[i])),
                    decreases items@.len() - k,
                {
                    proof {
                        assert(decreases_to!(*self => self->Array_0));
                        assert(decreases_to!(self->Array_0 => self->Array_0@));
                        assert(decreases_to!(self->Array_0@ => self->Array_0@[k as int]));
                        assert(decreases_to!(*self => items@[k as int]));
                    }
                    let val = items[k].clone();
                    out.push(val);
                    k = k + 1;
                }
                proof {
                    lemma_array_model_congruent(out@, items@);
                }
                Value::Array(out)
            },
            Value::Number(num) => Value::Number(num.clone()),
            Value::String(string) => Value::String(string.clone()),
            Value::Null => Value::Null,
            Value::Bool(boo) => Value::Bool(*boo),
        }
    }
}

} // verus!
