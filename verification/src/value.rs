//! Runtime values, their type tags, equality, truthiness and rendering.

use vstd::prelude::*;

use crate::callable::Callable;
use crate::num::{
    num_eq, num_wf, render_num, sp_num_eq, sp_render_num, Num,
};
use crate::token::bytes_eq;

verus! {

/// The runtime value union.
#[derive(Clone, Debug)]
pub enum Value {
    String(Vec<u8>),
    Num(Num),
    Bool(bool),
    Nil,
    Callable(Callable),
}

/// The mathematical form of a value: strings as byte sequences.
pub enum SpecValue {
    Str(Seq<u8>),
    Num(Num),
    Bool(bool),
    Nil,
    Callable(Callable),
}

impl View for Value {
    type V = SpecValue;

    open spec fn view(&self) -> SpecValue {
        match self {
            Value::String(s) => SpecValue::Str(s@),
            Value::Num(n) => SpecValue::Num(*n),
            Value::Bool(b) => SpecValue::Bool(*b),
            Value::Nil => SpecValue::Nil,
            Value::Callable(c) => SpecValue::Callable(*c),
        }
    }
}

/// The five runtime type tags.
#[derive(Clone, Copy, Debug, PartialEq, Eq, Structural)]
pub enum Type {
    String,
    Num,
    Bool,
    Nil,
    Callable,
}

pub open spec fn sp_value_wf(v: SpecValue) -> bool {
    match v {
        SpecValue::Num(n) => num_wf(n),
        _ => true,
    }
}

pub open spec fn sp_ty(v: SpecValue) -> Type {
    match v {
        SpecValue::Str(_) => Type::String,
        SpecValue::Num(_) => Type::Num,
        SpecValue::Bool(_) => Type::Bool,
        SpecValue::Nil => Type::Nil,
        SpecValue::Callable(_) => Type::Callable,
    }
}

/// Structural equality of values. Numbers compare as rationals; two
/// callables are equal only when they are the same registered function
/// or the same built-in kind; values of different types are unequal.
pub open spec fn sp_value_eq(a: SpecValue, b: SpecValue) -> bool {
    match (a, b) {
        (SpecValue::Str(x), SpecValue::Str(y)) => x == y,
        (SpecValue::Num(x), SpecValue::Num(y)) => sp_num_eq(x, y),
        (SpecValue::Bool(x), SpecValue::Bool(y)) => x == y,
        (SpecValue::Nil, SpecValue::Nil) => true,
        (SpecValue::Callable(x), SpecValue::Callable(y)) => x == y,
        _ => false,
    }
}

/// Truthiness: only `false` and `nil` are falsy.
pub open spec fn sp_truthy(v: SpecValue) -> bool {
    match v {
        SpecValue::Bool(b) => b,
        SpecValue::Nil => false,
        _ => true,
    }
}

/// The rendering of a value: strings quoted, numbers in decimal,
/// booleans and nil as keywords, callables as the word `callable`.
pub open spec fn sp_render_value(v: SpecValue) -> Seq<u8> {
    match v {
        SpecValue::Str(s) => seq![34u8] + s + seq![34u8],
        SpecValue::Num(n) => sp_render_num(n),
        SpecValue::Bool(b) => if b {
            seq![116u8, 114u8, 117u8, 101u8]
        } else {
            seq![102u8, 97u8, 108u8, 115u8, 101u8]
        },
        SpecValue::Nil => seq![110u8, 105u8, 108u8],
        SpecValue::Callable(_) => seq![
            99u8,
            97u8,
            108u8,
            108u8,
            97u8,
            98u8,
            108u8,
            101u8,
        ],
    }
}

impl Value {
    /// Builds a string value.
    pub fn string(s: Vec<u8>) -> (r: Value)
        ensures
            r@ == SpecValue::Str(s@),
    {
        Value::String(s)
    }

    /// The type tag of this value.
    pub fn ty(&self) -> (r: Type)
        ensures
            r == sp_ty(self@),
    {
        match self {
            Value::String(_) => Type::String,
            Value::Num(_) => Type::Num,
            Value::Bool(_) => Type::Bool,
            Value::Nil => Type::Nil,
            Value::Callable(_) => Type::Callable,
        }
    }
}

/// Copies a byte vector; the copy has the same view.
pub fn clone_bytes(v: &Vec<u8>) -> (r: Vec<u8>)
    ensures
        r@ == v@,
{
    let mut r: Vec<u8> = Vec::new();
    let mut i: usize = 0;
    while i < v.len()
        invariant
            0 <= i <= v@.len(),
            r@ == v@.subrange(0, i as int),
        decreases v@.len() - i,
    {
        r.push(v[i]);
        i = i + 1;
        proof {
            assert(r@ =~= v@.subrange(0, i as int));
        }
    }
    proof {
        assert(r@ =~= v@);
    }
    r
}

/// Copies a value; the copy has the same view.
pub fn clone_value(v: &Value) -> (r: Value)
    ensures
        r@ == v@,
{
    match v {
        Value::String(s) => Value::String(clone_bytes(s)),
        Value::Num(n) => Value::Num(*n),
        Value::Bool(b) => Value::Bool(*b),
        Value::Nil => Value::Nil,
        Value::Callable(c) => Value::Callable(*c),
    }
}

impl PartialEq for Value {
    fn eq(&self, other: &Value) -> (r: bool) {
        value_eq(self, other)
    }
}

impl vstd::std_specs::cmp::PartialEqSpecImpl for Value {
    open spec fn obeys_eq_spec() -> bool {
        true
    }

    open spec fn eq_spec(&self, other: &Value) -> bool {
        sp_value_eq(self@, other@)
    }
}

/// Decides `sp_value_eq`.
pub fn value_eq(a: &Value, b: &Value) -> (r: bool)
    ensures
        r == sp_value_eq(a@, b@),
{
    match (a, b) {
        (Value::String(x), Value::String(y)) => bytes_eq(x, y),
        (Value::Num(x), Value::Num(y)) => num_eq(*x, *y),
        (Value::Bool(x), Value::Bool(y)) => x == y,
        (Value::Nil, Value::Nil) => true,
        (Value::Callable(x), Value::Callable(y)) => x == y,
        _ => false,
    }
}

/// Decides `sp_truthy`.
pub fn is_truthy(v: &Value) -> (r: bool)
    ensures
        r == sp_truthy(v@),
{
    match v {
        Value::Bool(b) => *b,
        Value::Nil => false,
        _ => true,
    }
}

/// Renders a value as bytes, matching `sp_render_value`.
pub fn render_value(v: &Value) -> (r: Vec<u8>)
    requires
        sp_value_wf(v@),
    ensures
        r@ == sp_render_value(v@),
{
    match v {
        Value::String(s) => {
            let mut out: Vec<u8> = Vec::new();
            out.push(34);
            let mut i: usize = 0;
            while i < s.len()
                invariant
                    0 <= i <= s@.len(),
                    out@ == seq![34u8] + s@.subrange(0, i as int),
                decreases s@.len() - i,
            {
                out.push(s[i]);
                i = i + 1;
                proof {
                    assert(out@ =~= seq![34u8] + s@.subrange(0, i as int));
                }
            }
            out.push(34);
            proof {
                assert(s@.subrange(0, s@.len() as int) =~= s@);
                assert(out@ =~= seq![34u8] + s@ + seq![34u8]);
            }
            out
        }
        Value::Num(n) => render_num(*n),
        Value::Bool(b) => {
            let mut out: Vec<u8> = Vec::new();
            if *b {
                out.push(116);
                out.push(114);
                out.push(117);
                out.push(101);
            } else {
                out.push(102);
                out.push(97);
                out.push(108);
                out.push(115);
                out.push(101);
            }
            proof {
                assert(out@ =~= sp_render_value(v@));
            }
            out
        }
        Value::Nil => {
            let mut out: Vec<u8> = Vec::new();
            out.push(110);
            out.push(105);
            out.push(108);
            proof {
                assert(out@ =~= sp_render_value(v@));
            }
            out
        }
        Value::Callable(_) => {
            let mut out: Vec<u8> = Vec::new();
            out.push(99);
            out.push(97);
            out.push(108);
            out.push(108);
            out.push(97);
            out.push(98);
            out.push(108);
            out.push(101);
            proof {
                assert(out@ =~= sp_render_value(v@));
            }
            out
        }
    }
}

} // verus!
