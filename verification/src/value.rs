//! The canonical structural form of the store's state.
//!
//! Every aggregate serializes into a `Value`: a tree of null, booleans,
//! integers, strings, byte strings, arrays and keyed objects. Diffing and
//! patching (see `patch`) operate on this form. `ValueS` is the
//! mathematical model of a `Value`; every contract speaks of it.

use vstd::prelude::*;

verus! {

broadcast use vstd::std_specs::vec::group_vec_axioms;

/// Mathematical model of a canonical value.
pub enum ValueS {
    Null,
    Bool(bool),
    Int(u64),
    Time(i64),
    Str(Seq<char>),
    Bytes(Seq<u8>),
    Arr(Seq<ValueS>),
    Obj(Seq<FieldS>),
}

/// Mathematical model of one keyed field of an object.
pub struct FieldS {
    pub key: Seq<char>,
    pub val: ValueS,
}

/// A canonical structural value.
#[derive(Debug)]
pub enum Value {
    Null,
    Bool(bool),
    Int(u64),
    Time(i64),
    Str(String),
    Bytes(Vec<u8>),
    Arr(Vec<Value>),
    Obj(Vec<Field>),
}

/// One keyed field of a canonical object.
#[derive(Debug)]
pub struct Field {
    pub key: String,
    pub val: Value,
}

/// The model of a canonical value.
pub open spec fn v_model(v: Value) -> ValueS
    decreases v, 1int,
{
    match v {
        Value::Null => ValueS::Null,
        Value::Bool(b) => ValueS::Bool(b),
        Value::Int(n) => ValueS::Int(n),
        Value::Time(t) => ValueS::Time(t),
        Value::Str(s) => ValueS::Str(s@),
        Value::Bytes(b) => ValueS::Bytes(b@),
        Value::Arr(xs) => ValueS::Arr(arr_model(xs)),
        Value::Obj(fs) => ValueS::Obj(obj_model(fs)),
    }
}

/// The models of an array's elements, in order.
pub open spec fn arr_model(xs: Vec<Value>) -> Seq<ValueS>
    decreases xs, 0int,
{
    Seq::new(
        xs@.len(),
        |i: int|
            if 0 <= i < xs@.len() {
                v_model(xs@[i])
            } else {
                ValueS::Null
            },
    )
}

/// The model of one keyed field.
pub open spec fn field_model(f: Field) -> FieldS
    decreases f, 1int,
{
    FieldS { key: f.key@, val: v_model(f.val) }
}

/// The models of an object's fields, in order.
pub open spec fn obj_model(fs: Vec<Field>) -> Seq<FieldS>
    decreases fs, 0int,
{
    Seq::new(
        fs@.len(),
        |i: int|
            if 0 <= i < fs@.len() {
                field_model(fs@[i])
            } else {
                FieldS { key: Seq::empty(), val: ValueS::Null }
            },
    )
}

impl View for Value {
    type V = ValueS;

    open spec fn view(&self) -> ValueS {
        v_model(*self)
    }
}

impl View for Field {
    type V = FieldS;

    open spec fn view(&self) -> FieldS {
        field_model(*self)
    }
}

/// Well-formedness of a canonical value: every object's keys are
/// pairwise distinct, at every depth. The canonical serialization only
/// produces such values; patch application relies on it to find a field
/// by key unambiguously.
pub open spec fn wf(v: ValueS) -> bool
    decreases v,
{
    match v {
        ValueS::Arr(xs) => forall|i: int| 0 <= i < xs.len() ==> wf(#[trigger] xs[i]),
        ValueS::Obj(fs) => (forall|i: int, j: int|
            0 <= i < j < fs.len() ==> fs[i].key != fs[j].key) && (forall|i: int|
            0 <= i < fs.len() ==> wf(#[trigger] fs[i].val)),
        _ => true,
    }
}

/// Structural equality of byte strings.
fn bytes_eq(a: &Vec<u8>, b: &Vec<u8>) -> (r: bool)
    ensures
        r == (a@ == b@),
{
    if a.len() != b.len() {
        return false;
    }
    let n = a.len();
    let mut i: usize = 0;
    while i < n
        invariant
            n == a@.len(),
            n == b@.len(),
            i <= n,
            forall|j: int| 0 <= j < i ==> a@[j] == b@[j],
        decreases n - i,
    {
        if a[i] != b[i] {
            return false;
        }
        i += 1;
    }
    proof {
        assert(a@ =~= b@);
    }
    true
}

/// Structural equality of canonical values, decided recursively; `r` is
/// true iff the two model values are equal.
#[verifier::loop_isolation(false)]
pub fn value_eq(a: &Value, b: &Value) -> (r: bool)
    ensures
        r == (a@ == b@),
    decreases *a,
{
    match (a, b) {
        (Value::Null, Value::Null) => true,
        (Value::Bool(x), Value::Bool(y)) => x == y,
        (Value::Int(x), Value::Int(y)) => x == y,
        (Value::Time(x), Value::Time(y)) => x == y,
        (Value::Str(x), Value::Str(y)) => *x == *y,
        (Value::Bytes(x), Value::Bytes(y)) => bytes_eq(x, y),
        (Value::Arr(xs), Value::Arr(ys)) => {
            if xs.len() != ys.len() {
                assert(arr_model(*xs).len() != arr_model(*ys).len());
                return false;
            }
            let n = xs.len();
            let mut i: usize = 0;
            while i < n
                invariant
                    n == xs@.len(),
                    n == ys@.len(),
                    i <= n,
                    forall|j: int| 0 <= j < i ==> arr_model(*xs)[j] == arr_model(*ys)[j],
                decreases n - i,
            {
                proof {
                    assert(decreases_to!(*xs => xs@[i as int]));
                }
                if !value_eq(&xs[i], &ys[i]) {
                    assert(arr_model(*xs)[i as int] != arr_model(*ys)[i as int]);
                    return false;
                }
                i += 1;
            }
            proof {
                assert(arr_model(*xs) =~= arr_model(*ys));
            }
            true
        },
        (Value::Obj(xs), Value::Obj(ys)) => {
            if xs.len() != ys.len() {
                assert(obj_model(*xs).len() != obj_model(*ys).len());
                return false;
            }
            let n = xs.len();
            let mut i: usize = 0;
            while i < n
                invariant
                    n == xs@.len(),
                    n == ys@.len(),
                    i <= n,
                    forall|j: int| 0 <= j < i ==> obj_model(*xs)[j] == obj_model(*ys)[j],
                decreases n - i,
            {
                proof {
                    assert(decreases_to!(*xs => xs@[i as int]));
                    assert(decreases_to!(xs@[i as int] => xs@[i as int].val));
                }
                if !(xs[i].key == ys[i].key) {
                    assert(obj_model(*xs)[i as int] != obj_model(*ys)[i as int]);
                    return false;
                }
                if !value_eq(&xs[i].val, &ys[i].val) {
                    assert(obj_model(*xs)[i as int] != obj_model(*ys)[i as int]);
                    return false;
                }
                i += 1;
            }
            proof {
                assert(obj_model(*xs) =~= obj_model(*ys));
            }
            true
        },
        _ => {
            assert(a@ != b@);
            false
        },
    }
}

impl Value {
    /// A structural copy: the result models the same canonical value.
    #[verifier::loop_isolation(false)]
    pub fn deep_clone(&self) -> (r: Value)
        ensures
            r@ == self@,
        decreases *self,
    {
        match self {
            Value::Null => Value::Null,
            Value::Bool(b) => Value::Bool(*b),
            Value::Int(n) => Value::Int(*n),
            Value::Time(t) => Value::Time(*t),
            Value::Str(s) => Value::Str(s.clone()),
            Value::Bytes(b) => {
                let n = b.len();
                let mut out: Vec<u8> = Vec::new();
                let mut i: usize = 0;
                while i < n
                    invariant
                        n == b@.len(),
                        i <= n,
                        out@ =~= b@.subrange(0, i as int),
                    decreases n - i,
                {
                    out.push(b[i]);
                    proof {
                        assert(out@ =~= b@.subrange(0, i + 1 as int));
                    }
                    i += 1;
                }
                proof {
                    assert(out@ =~= b@);
                }
                Value::Bytes(out)
            },
            Value::Arr(xs) => {
                let n = xs.len();
                let mut out: Vec<Value> = Vec::new();
                let mut i: usize = 0;
                while i < n
                    invariant
                        n == xs@.len(),
                        i <= n,
                        out@.len() == i,
                            forall|j: int| 0 <= j < i ==> arr_model(out)[j] == arr_model(*xs)[j],
                    decreases n - i,
                {
                    proof {
                        assert(decreases_to!(*xs => xs@[i as int]));
                    }
                    let c = xs[i].deep_clone();
                    out.push(c);
                    i += 1;
                }
                proof {
                    assert(arr_model(out) =~= arr_model(*xs));
                }
                Value::Arr(out)
            },
            Value::Obj(fs) => {
                let n = fs.len();
                let mut out: Vec<Field> = Vec::new();
                let mut i: usize = 0;
                while i < n
                    invariant
                        n == fs@.len(),
                        i <= n,
                        out@.len() == i,
                            forall|j: int| 0 <= j < i ==> obj_model(out)[j] == obj_model(*fs)[j],
                    decreases n - i,
                {
                    proof {
                        assert(decreases_to!(*fs => fs@[i as int]));
                        assert(decreases_to!(fs@[i as int] => fs@[i as int].val));
                    }
                    let c = Field { key: fs[i].key.clone(), val: fs[i].val.deep_clone() };
                    out.push(c);
                    i += 1;
                }
                proof {
                    assert(obj_model(out) =~= obj_model(*fs));
                }
                Value::Obj(out)
            },
        }
    }
}

} // verus!
