//! The tagged-union configuration value: a JSON-like value restricted to
//! the forms the generation engine consumes (strings, integers, booleans,
//! arrays, nested objects, null).

use vstd::prelude::*;

verus! {

broadcast use vstd::std_specs::vec::axiom_vec_index_decreases;

/// A configuration value as the engine stores it.
pub enum Value {
    Null,
    Bool(bool),
    Int(i64),
    Str(String),
    Arr(Vec<Value>),
    Obj(Vec<(String, Value)>),
}

/// The mathematical shape of a `Value`: strings become character
/// sequences, collections become sequences.
#[verifier::ext_equal]
pub enum ValueV {
    Null,
    Bool(bool),
    Int(int),
    Str(Seq<char>),
    Arr(Seq<ValueV>),
    Obj(Seq<(Seq<char>, ValueV)>),
}

impl View for Value {
    type V = ValueV;

    open spec fn view(&self) -> ValueV {
        value_view(*self)
    }
}

/// The shape of one value.
pub open spec fn value_view(v: Value) -> ValueV
    decreases v,
{
    match v {
        Value::Null => ValueV::Null,
        Value::Bool(b) => ValueV::Bool(b),
        Value::Int(i) => ValueV::Int(i as int),
        Value::Str(s) => ValueV::Str(s@),
        Value::Arr(a) => ValueV::Arr(arr_view(a@)),
        Value::Obj(o) => ValueV::Obj(obj_view(o@)),
    }
}

/// The shapes of the array elements, in order.
pub open spec fn arr_view(s: Seq<Value>) -> Seq<ValueV>
    decreases s,
{
    if s.len() == 0 {
        Seq::empty()
    } else {
        arr_view(s.drop_last()).push(value_view(s.last()))
    }
}

/// The shapes of the object entries, in order.
pub open spec fn obj_view(s: Seq<(String, Value)>) -> Seq<(Seq<char>, ValueV)>
    decreases s,
{
    if s.len() == 0 {
        Seq::empty()
    } else {
        obj_view(s.drop_last()).push((s.last().0@, value_view(s.last().1)))
    }
}

/// `arr_view` keeps the length and maps each element to its shape.
pub proof fn lemma_arr_view(s: Seq<Value>)
    ensures
        arr_view(s).len() == s.len(),
        forall|i: int| 0 <= i < s.len() ==> #[trigger] arr_view(s)[i] == s[i]@,
    decreases s.len(),
{
    if s.len() > 0 {
        lemma_arr_view(s.drop_last());
        assert forall|i: int| 0 <= i < s.len() implies #[trigger] arr_view(s)[i] == s[i]@ by {
            if i < s.len() - 1 {
                assert(s.drop_last()[i] == s[i]);
                assert(arr_view(s)[i] == arr_view(s.drop_last())[i]);
            } else {
                assert(s.last() == s[i]);
            }
        }
    }
}

/// `obj_view` keeps the length and maps each entry to its shape.
pub proof fn lemma_obj_view(s: Seq<(String, Value)>)
    ensures
        obj_view(s).len() == s.len(),
        forall|i: int| 0 <= i < s.len() ==> #[trigger] obj_view(s)[i] == (s[i].0@, s[i].1@),
    decreases s.len(),
{
    if s.len() > 0 {
        lemma_obj_view(s.drop_last());
        assert forall|i: int| 0 <= i < s.len() implies #[trigger] obj_view(s)[i] == (
            s[i].0@,
            s[i].1@,
        ) by {
            if i < s.len() - 1 {
                assert(s.drop_last()[i] == s[i]);
                assert(obj_view(s)[i] == obj_view(s.drop_last())[i]);
            } else {
                assert(s.last() == s[i]);
            }
        }
    }
}

/// A duplicate of the value, equal to the original in every field.
#[verifier::loop_isolation(false)]
pub fn clone_value(v: &Value) -> (r: Value)
    ensures
        r@ == v@,
    decreases *v,
{
    match v {
        Value::Null => Value::Null,
        Value::Bool(b) => Value::Bool(*b),
        Value::Int(i) => Value::Int(*i),
        Value::Str(s) => Value::Str(s.clone()),
        Value::Arr(a) => {
            let mut out: Vec<Value> = Vec::new();
            let mut i: usize = 0;
            while i < a.len()
                invariant
                    i <= a.len(),
                    out@.len() == i as int,
                    forall|j: int| 0 <= j < i as int ==> out@[j]@ == #[trigger] a@[j]@,
                decreases a.len() - i,
            {
                proof {
                    assert(decreases_to!(*v => v->Arr_0));
                    assert(decreases_to!(v->Arr_0 => v->Arr_0[i as int]));
                }
                let c = clone_value(&a[i]);
                out.push(c);
                i = i + 1;
            }
            let res = Value::Arr(out);
            proof {
                lemma_arr_view(out@);
                lemma_arr_view(a@);
                assert(arr_view(out@) =~= arr_view(a@));
            }
            res
        },
        Value::Obj(o) => {
            let mut out: Vec<(String, Value)> = Vec::new();
            let mut i: usize = 0;
            while i < o.len()
                invariant
                    i <= o.len(),
                    out@.len() == i as int,
                    forall|j: int| 0 <= j < i as int ==> out@[j].0@ == #[trigger] o@[j].0@
                        && out@[j].1@ == o@[j].1@,
                decreases o.len() - i,
            {
                proof {
                    assert(decreases_to!(*v => v->Obj_0));
                    assert(decreases_to!(v->Obj_0 => v->Obj_0[i as int]));
                    assert(decreases_to!(v->Obj_0[i as int] => v->Obj_0[i as int].1));
                }
                let k = o[i].0.clone();
                let c = clone_value(&o[i].1);
                out.push((k, c));
                i = i + 1;
            }
            let res = Value::Obj(out);
            proof {
                lemma_obj_view(out@);
                lemma_obj_view(o@);
                assert(obj_view(out@) =~= obj_view(o@));
            }
            res
        },
    }
}

} // verus!
