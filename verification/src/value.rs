//! A model of JSON documents.
//!
//! `Value` is the executable document tree; `ValueV` is its mathematical
//! shadow, used by every contract in the crate.  Numbers are 64-bit signed
//! integers: the protocol core only ever inspects integer ids, integer error
//! codes and integer-valued parameters, so non-integer numbers are left to
//! the unverified transport layer.

use vstd::prelude::*;

verus! {

/// Spec-level JSON document: the deep view of [`Value`].
#[verifier::ext_equal]
pub enum ValueV {
    Null,
    Bool(bool),
    Int(int),
    Str(Seq<char>),
    Arr(Seq<ValueV>),
    Obj(Seq<(Seq<char>, ValueV)>),
}

/// A JSON document with integer numbers.
///
/// An object is kept as the sequence of its members in document order;
/// key lookup takes the first member with the given key.
#[derive(Debug)]
pub enum Value {
    Null,
    Bool(bool),
    Int(i64),
    Str(String),
    Arr(Vec<Value>),
    Obj(Vec<(String, Value)>),
}

/// The deep view of a document tree.
pub open spec fn value_view(v: Value) -> ValueV
    decreases v,
{
    match v {
        Value::Null => ValueV::Null,
        Value::Bool(b) => ValueV::Bool(b),
        Value::Int(n) => ValueV::Int(n as int),
        Value::Str(s) => ValueV::Str(s@),
        Value::Arr(items) => ValueV::Arr(vals_view(items@)),
        Value::Obj(members) => ValueV::Obj(members_view(members@)),
    }
}

/// The deep view of a sequence of documents.
pub open spec fn vals_view(s: Seq<Value>) -> Seq<ValueV>
    decreases s,
{
    if s.len() == 0 {
        Seq::empty()
    } else {
        vals_view(s.drop_last()).push(value_view(s.last()))
    }
}

/// The deep view of a sequence of object members.
pub open spec fn members_view(s: Seq<(String, Value)>) -> Seq<(Seq<char>, ValueV)>
    decreases s,
{
    if s.len() == 0 {
        Seq::empty()
    } else {
        members_view(s.drop_last()).push((s.last().0@, value_view(s.last().1)))
    }
}

pub broadcast proof fn lemma_vals_view_len(s: Seq<Value>)
    ensures
        #[trigger] vals_view(s).len() == s.len(),
    decreases s,
{
    if s.len() != 0 {
        lemma_vals_view_len(s.drop_last());
    }
}

pub broadcast proof fn lemma_vals_view_index(s: Seq<Value>, i: int)
    requires
        0 <= i < s.len(),
    ensures
        #[trigger] vals_view(s)[i] == value_view(s[i]),
    decreases s,
{
    lemma_vals_view_len(s.drop_last());
    if i < s.len() - 1 {
        lemma_vals_view_index(s.drop_last(), i);
    }
}

pub broadcast proof fn lemma_members_view_len(s: Seq<(String, Value)>)
    ensures
        #[trigger] members_view(s).len() == s.len(),
    decreases s,
{
    if s.len() != 0 {
        lemma_members_view_len(s.drop_last());
    }
}

pub broadcast proof fn lemma_members_view_index(s: Seq<(String, Value)>, i: int)
    requires
        0 <= i < s.len(),
    ensures
        #[trigger] members_view(s)[i] == (s[i].0@, value_view(s[i].1)),
    decreases s,
{
    lemma_members_view_len(s.drop_last());
    if i < s.len() - 1 {
        lemma_members_view_index(s.drop_last(), i);
    }
}

impl View for Value {
    type V = ValueV;

    open spec fn view(&self) -> ValueV {
        value_view(*self)
    }
}

impl DeepView for Value {
    type V = ValueV;

    open spec fn deep_view(&self) -> ValueV {
        value_view(*self)
    }
}

/// The first value bound to `key` in an object member list, if any.
pub open spec fn obj_lookup(members: Seq<(Seq<char>, ValueV)>, key: Seq<char>) -> Option<ValueV>
    decreases members.len(),
{
    if members.len() == 0 {
        None
    } else if members[0].0 == key {
        Some(members[0].1)
    } else {
        obj_lookup(members.skip(1), key)
    }
}

/// First value bound to `key` among `members`, by linear search.
pub fn obj_get<'a>(members: &'a Vec<(String, Value)>, key: &String) -> (r: Option<&'a Value>)
    ensures
        match r {
            Some(v) => obj_lookup(members_view(members@), key@) == Some(v@),
            None => obj_lookup(members_view(members@), key@) is None,
        },
{
    let ghost model = members_view(members@);
    proof {
        lemma_members_view_len(members@);
        assert(model.skip(0) =~= model);
    }
    for i in 0..members.len()
        invariant
            model == members_view(members@),
            i <= members.len(),
            obj_lookup(model, key@) == obj_lookup(model.skip(i as int), key@),
    {
        proof {
            lemma_members_view_len(members@);
            lemma_members_view_index(members@, i as int);
            assert(model.skip(i as int)[0] == model[i as int]);
        }
        if members[i].0 == *key {
            return Some(&members[i].1);
        }
        proof {
            assert(model.skip(i as int).skip(1) =~= model.skip(i + 1));
        }
    }
    None
}

/// Structural copy of a document tree.
pub fn clone_value(v: &Value) -> (r: Value)
    ensures
        r@ == v@,
    decreases v,
{
    match v {
        Value::Null => Value::Null,
        Value::Bool(b) => Value::Bool(*b),
        Value::Int(n) => Value::Int(*n),
        Value::Str(s) => Value::Str(s.clone()),
        Value::Arr(items) => Value::Arr(clone_values(items)),
        Value::Obj(members) => Value::Obj(clone_members(members)),
    }
}

/// Structural copy of a document sequence.
pub fn clone_values(items: &Vec<Value>) -> (r: Vec<Value>)
    ensures
        vals_view(r@) == vals_view(items@),
    decreases items,
{
    let mut out: Vec<Value> = Vec::new();
    let n = items.len();
    for i in 0..n
        invariant
            n == items.len(),
            out@.len() == i,
            vals_view(out@) =~= vals_view(items@).take(i as int),
        decreases items, n - i,
    {
        let ghost prev = out@;
        out.push(clone_value(&items[i]));
        proof {
            lemma_vals_view_len(items@);
            lemma_vals_view_index(items@, i as int);
            assert(out@.drop_last() =~= prev);
            assert(vals_view(out@) =~= vals_view(items@).take(i + 1));
        }
    }
    proof {
        lemma_vals_view_len(items@);
        assert(vals_view(items@).take(n as int) =~= vals_view(items@));
    }
    out
}

/// Structural copy of an object member list.
pub fn clone_members(members: &Vec<(String, Value)>) -> (r: Vec<(String, Value)>)
    ensures
        members_view(r@) == members_view(members@),
    decreases members,
{
    let mut out: Vec<(String, Value)> = Vec::new();
    let n = members.len();
    for i in 0..n
        invariant
            n == members.len(),
            out@.len() == i,
            members_view(out@) =~= members_view(members@).take(i as int),
        decreases members, n - i,
    {
        let ghost prev = out@;
        out.push((members[i].0.clone(), clone_value(&members[i].1)));
        proof {
            lemma_members_view_len(members@);
            lemma_members_view_index(members@, i as int);
            assert(out@.drop_last() =~= prev);
            assert(members_view(out@) =~= members_view(members@).take(i + 1));
        }
    }
    proof {
        lemma_members_view_len(members@);
        assert(members_view(members@).take(n as int) =~= members_view(members@));
    }
    out
}


/// Structural equality of two document trees, at the level of views.
pub fn value_eq(a: &Value, b: &Value) -> (r: bool)
    ensures
        r == (a@ == b@),
    decreases a,
{
    match (a, b) {
        (Value::Null, Value::Null) => true,
        (Value::Bool(x), Value::Bool(y)) => *x == *y,
        (Value::Int(x), Value::Int(y)) => *x == *y,
        (Value::Str(x), Value::Str(y)) => *x == *y,
        (Value::Arr(x), Value::Arr(y)) => values_eq(x, y),
        (Value::Obj(x), Value::Obj(y)) => members_eq(x, y),
        _ => false,
    }
}

/// Structural equality of two document sequences.
pub fn values_eq(x: &Vec<Value>, y: &Vec<Value>) -> (r: bool)
    ensures
        r == (vals_view(x@) == vals_view(y@)),
    decreases x,
{
    proof {
        lemma_vals_view_len(x@);
        lemma_vals_view_len(y@);
    }
    if x.len() != y.len() {
        return false;
    }
    let n = x.len();
    for i in 0..n
        invariant
            n == x.len() && n == y.len(),
            forall|j: int| 0 <= j < i ==> vals_view(x@)[j] == vals_view(y@)[j],
        decreases x, n - i,
    {
        proof {
            lemma_vals_view_index(x@, i as int);
            lemma_vals_view_index(y@, i as int);
        }
        if !value_eq(&x[i], &y[i]) {
            proof {
                assert(vals_view(x@)[i as int] != vals_view(y@)[i as int]);
            }
            return false;
        }
    }
    proof {
        lemma_vals_view_len(x@);
        lemma_vals_view_len(y@);
        assert(vals_view(x@) =~= vals_view(y@));
    }
    true
}

/// Structural equality of two object member lists: same keys in the same
/// order, with structurally equal values.
pub fn members_eq(x: &Vec<(String, Value)>, y: &Vec<(String, Value)>) -> (r: bool)
    ensures
        r == (members_view(x@) == members_view(y@)),
    decreases x,
{
    proof {
        lemma_members_view_len(x@);
        lemma_members_view_len(y@);
    }
    if x.len() != y.len() {
        return false;
    }
    let n = x.len();
    for i in 0..n
        invariant
            n == x.len() && n == y.len(),
            forall|j: int| 0 <= j < i ==> members_view(x@)[j] == members_view(y@)[j],
        decreases x, n - i,
    {
        proof {
            lemma_members_view_index(x@, i as int);
            lemma_members_view_index(y@, i as int);
        }
        if !(x[i].0 == y[i].0) {
            proof {
                assert(members_view(x@)[i as int] != members_view(y@)[i as int]);
            }
            return false;
        }
        if !value_eq(&x[i].1, &y[i].1) {
            proof {
                assert(members_view(x@)[i as int] != members_view(y@)[i as int]);
            }
            return false;
        }
    }
    proof {
        lemma_members_view_len(x@);
        lemma_members_view_len(y@);
        assert(members_view(x@) =~= members_view(y@));
    }
    true
}

impl PartialEq for Value {
    fn eq(&self, other: &Self) -> (r: bool) {
        value_eq(self, other)
    }
}

impl vstd::std_specs::cmp::PartialEqSpecImpl for Value {
    open spec fn obeys_eq_spec() -> bool {
        true
    }

    open spec fn eq_spec(&self, other: &Self) -> bool {
        self@ == other@
    }
}

impl Clone for Value {
    fn clone(&self) -> (r: Self)
        ensures
            r@ == self@,
    {
        clone_value(self)
    }
}

} // verus!
