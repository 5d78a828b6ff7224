//! Runtime values.

use vstd::prelude::*;
use vstd::slice::slice_to_vec;
use vstd::std_specs::cmp::PartialEqSpecImpl;
use vstd::string::*;
use vstd::utf8::encode_utf8;
use crate::number;
use crate::stmt::{Function, FunctionModel};

verus! {

/// A function declared in the program. It owns its declaration.
#[derive(Debug)]
pub struct LoxFunction {
    pub declaration: Function,
}

impl Clone for LoxFunction {
    fn clone(&self) -> (copy: Self)
        ensures
            copy.declaration@ == self.declaration@,
    {
        LoxFunction { declaration: self.declaration.clone() }
    }
}

/// A runtime value. A number is the bit pattern of an IEEE 754 double; a
/// builtin is its arity and the index under which the host keeps its code.
#[derive(Debug)]
pub enum Object {
    Nil,
    String(String),
    Number(u64),
    Bool(bool),
    BuiltinFunction(usize, usize),
    Function(LoxFunction),
}

/// A runtime value as a mathematical value.
pub ghost enum ObjectModel {
    Nil,
    String(Seq<char>),
    Number(u64),
    Bool(bool),
    BuiltinFunction(usize, usize),
    Function(FunctionModel),
}

/// The display form of a value: UTF-8 text, or a number that is still to
/// be written out in decimal.
#[derive(Debug, PartialEq, Eq)]
pub enum Rendered {
    Text(Vec<u8>),
    Number(u64),
}

/// A display form as a mathematical value.
pub ghost enum RenderedModel {
    Text(Seq<u8>),
    Number(u64),
}

impl View for Rendered {
    type V = RenderedModel;

    open spec fn view(&self) -> RenderedModel {
        match self {
            Rendered::Text(text) => RenderedModel::Text(text@),
            Rendered::Number(bits) => RenderedModel::Number(*bits),
        }
    }
}

impl View for Object {
    type V = ObjectModel;

    open spec fn view(&self) -> ObjectModel {
        match self {
            Object::Nil => ObjectModel::Nil,
            Object::String(text) => ObjectModel::String(text@),
            Object::Number(bits) => ObjectModel::Number(*bits),
            Object::Bool(value) => ObjectModel::Bool(*value),
            Object::BuiltinFunction(arity, native) => ObjectModel::BuiltinFunction(*arity, *native),
            Object::Function(function) => ObjectModel::Function(function.declaration.declared()),
        }
    }
}

/// The models of a list of values, in order.
pub open spec fn object_models(objects: Seq<Object>) -> Seq<ObjectModel> {
    Seq::new(objects.len(), |i: int| objects[i]@)
}

/// Truthiness: `nil` and `false` are falsy, every other value is truthy.
pub open spec fn truthy(value: ObjectModel) -> bool {
    match value {
        ObjectModel::Nil => false,
        ObjectModel::Bool(value) => value,
        _ => true,
    }
}

/// Whether a value can be called.
pub open spec fn callable(value: ObjectModel) -> bool {
    value is BuiltinFunction || value is Function
}

/// The number of arguments a callable takes; `usize::MAX` for a value that
/// cannot be called.
pub open spec fn arity_of(value: ObjectModel) -> int {
    match value {
        ObjectModel::BuiltinFunction(arity, _) => arity as int,
        ObjectModel::Function(function) => function.params.len() as int,
        _ => usize::MAX as int,
    }
}

/// Equality of values: `nil` equals `nil`; truth values, numbers and
/// strings equal a value of their own kind with the same content, numbers
/// as doubles do; every other pair is unequal, two callables too.
pub open spec fn equals(a: ObjectModel, b: ObjectModel) -> bool {
    match (a, b) {
        (ObjectModel::Nil, ObjectModel::Nil) => true,
        (ObjectModel::Bool(x), ObjectModel::Bool(y)) => x == y,
        (ObjectModel::Number(x), ObjectModel::Number(y)) => number::same(x, y),
        (ObjectModel::String(x), ObjectModel::String(y)) => x == y,
        _ => false,
    }
}

/// Whether `bits` is the number a value stands for: a number is itself,
/// `true` is 1, `false` and `nil` are 0, a string is its length in bytes.
pub open spec fn numbered(value: ObjectModel, bits: u64) -> bool {
    match value {
        ObjectModel::Nil => bits == number::ZERO,
        ObjectModel::Bool(value) => bits == if value {
            number::ONE
        } else {
            number::ZERO
        },
        ObjectModel::Number(own) => bits == own,
        ObjectModel::String(text) => number::nearest(encode_utf8(text).len(), bits),
        _ => true,
    }
}

/// The display form of a value.
pub open spec fn display(value: ObjectModel) -> RenderedModel {
    match value {
        ObjectModel::Nil => RenderedModel::Text("nil".spec_bytes()),
        ObjectModel::String(text) => RenderedModel::Text(encode_utf8(text)),
        ObjectModel::Number(bits) => RenderedModel::Number(bits),
        ObjectModel::Bool(value) => RenderedModel::Text(
            if value {
                "true".spec_bytes()
            } else {
                "false".spec_bytes()
            },
        ),
        ObjectModel::BuiltinFunction(_, _) => RenderedModel::Text("<native fn>".spec_bytes()),
        ObjectModel::Function(function) => RenderedModel::Text(
            "<fn ".spec_bytes() + function.name.lexeme + ">".spec_bytes(),
        ),
    }
}

/// Appends `bytes` to `target`.
pub fn append_bytes(target: &mut Vec<u8>, bytes: &[u8])
    ensures
        final(target)@ == old(target)@ + bytes@,
{
    let mut i: usize = 0;
    while i < bytes.len()
        invariant
            i <= bytes@.len(),
            target@ == old(target)@ + bytes@.subrange(0, i as int),
        decreases bytes@.len() - i,
    {
        target.push(bytes[i]);
        i += 1;
        assert(target@ =~= old(target)@ + bytes@.subrange(0, i as int));
    }
    assert(bytes@.subrange(0, i as int) =~= bytes@);
}

impl Object {
    pub fn new_number(value: u64) -> (object: Object)
        ensures
            object@ == ObjectModel::Number(value),
    {
        Object::Number(value)
    }

    pub fn new_bool(value: bool) -> (object: Object)
        ensures
            object@ == ObjectModel::Bool(value),
    {
        Object::Bool(value)
    }

    pub fn nil() -> (object: Object)
        ensures
            object@ == ObjectModel::Nil,
    {
        Object::Nil
    }

    pub fn new_string(value: String) -> (object: Object)
        ensures
            object@ == ObjectModel::String(value@),
    {
        Object::String(value)
    }

    pub fn new_builtin_function(arity: usize, native: usize) -> (object: Object)
        ensures
            object@ == ObjectModel::BuiltinFunction(arity, native),
    {
        Object::BuiltinFunction(arity, native)
    }

    pub fn new_function(declaration: Function) -> (object: Object)
        ensures
            object@ == ObjectModel::Function(declaration.declared()),
    {
        Object::Function(LoxFunction { declaration })
    }

    pub fn is_nil(&self) -> (yes: bool)
        ensures
            yes == (self@ is Nil),
    {
        match self {
            Object::Nil => true,
            _ => false,
        }
    }

    pub fn is_string(&self) -> (yes: bool)
        ensures
            yes == (self@ is String),
    {
        match self {
            Object::String(_) => true,
            _ => false,
        }
    }

    pub fn is_number(&self) -> (yes: bool)
        ensures
            yes == (self@ is Number),
    {
        match self {
            Object::Number(_) => true,
            _ => false,
        }
    }

    pub fn is_bool(&self) -> (yes: bool)
        ensures
            yes == (self@ is Bool),
    {
        match self {
            Object::Bool(_) => true,
            _ => false,
        }
    }

    /// The nil value carries nothing to hand out.
    pub fn as_nil(&self) {
    }

    /// The text of a string, the display form of any other value.
    pub fn as_string(&self) -> (text: Rendered)
        ensures
            text@ == display(self@),
    {
        match self {
            Object::String(s) => Rendered::Text(slice_to_vec(s.as_str().as_bytes())),
            _ => self.rendered(),
        }
    }

    /// The display form, as a `print` statement shows it.
    pub fn rendered(&self) -> (text: Rendered)
        ensures
            text@ == display(self@),
    {
        match self {
            Object::Nil => Rendered::Text(slice_to_vec("nil".as_bytes())),
            Object::String(s) => Rendered::Text(slice_to_vec(s.as_str().as_bytes())),
            Object::Number(n) => Rendered::Number(*n),
            Object::Bool(b) => if *b {
                Rendered::Text(slice_to_vec("true".as_bytes()))
            } else {
                Rendered::Text(slice_to_vec("false".as_bytes()))
            },
            Object::BuiltinFunction(_, _) => Rendered::Text(slice_to_vec("<native fn>".as_bytes())),
            Object::Function(func) => {
                let mut text = slice_to_vec("<fn ".as_bytes());
                append_bytes(&mut text, func.declaration.name.lexeme.as_slice());
                append_bytes(&mut text, ">".as_bytes());
                Rendered::Text(text)
            },
        }
    }

    /// The number a value stands for. Callables stand for none.
    pub fn as_number(&self) -> (bits: u64)
        requires
            !callable(self@),
        ensures
            numbered(self@, bits),
    {
        match self {
            Object::Nil => number::ZERO,
            Object::String(s) => number::from_length(s.as_str().as_bytes().len()),
            Object::Number(n) => *n,
            Object::Bool(b) => number::from_bool(*b),
            _ => number::ZERO,
        }
    }

    pub fn as_bool(&self) -> (yes: bool)
        ensures
            yes == truthy(self@),
    {
        match self {
            Object::Bool(b) => *b,
            Object::Nil => false,
            _ => true,
        }
    }

    pub fn is_callable(&self) -> (yes: bool)
        ensures
            yes == callable(self@),
    {
        match self {
            Object::Nil => false,
            Object::String(_) => false,
            Object::Number(_) => false,
            Object::Bool(_) => false,
            Object::BuiltinFunction(_, _) => true,
            Object::Function(_) => true,
        }
    }

    pub fn arity(&self) -> (count: usize)
        ensures
            count == arity_of(self@),
    {
        match self {
            Object::BuiltinFunction(arity, _) => *arity,
            Object::Function(f) => f.declaration.params.len(),
            _ => usize::MAX,
        }
    }
}

impl Clone for Object {
    fn clone(&self) -> (copy: Self)
        ensures
            copy@ == self@,
    {
        match self {
            Object::Nil => Object::Nil,
            Object::String(text) => Object::String(text.clone()),
            Object::Number(bits) => Object::Number(*bits),
            Object::Bool(value) => Object::Bool(*value),
            Object::BuiltinFunction(arity, native) => Object::BuiltinFunction(*arity, *native),
            Object::Function(function) => Object::Function(function.clone()),
        }
    }
}

impl PartialEq for Object {
    fn eq(&self, other: &Self) -> (equal: bool) {
        match (self, other) {
            (Object::Nil, Object::Nil) => true,
            (Object::Bool(x), Object::Bool(y)) => *x == *y,
            (Object::Number(x), Object::Number(y)) => number::equal(*x, *y),
            (Object::String(x), Object::String(y)) => *x == *y,
            _ => false,
        }
    }
}

impl PartialEqSpecImpl for Object {
    open spec fn obeys_eq_spec() -> bool {
        true
    }

    open spec fn eq_spec(&self, other: &Self) -> bool {
        equals(self@, other@)
    }
}


/// Only `nil` and `false` are falsy: every number, zero and NaN too, every
/// string, the empty one too, and every callable is truthy.
pub proof fn law_truthy(value: ObjectModel)
    ensures
        truthy(value) <==> !(value is Nil) && value != ObjectModel::Bool(false),
        value is Number || value is String || callable(value) ==> truthy(value),
{
}

/// Every value is of exactly one kind.
pub proof fn law_one_kind(value: ObjectModel)
    ensures
        value is Nil || value is String || value is Number || value is Bool || callable(value),
        !(value is Nil && value is String),
        callable(value) ==> !(value is Nil || value is String || value is Number || value is Bool),
{
}

/// Values of different kinds are never equal, `nil` equals only `nil`,
/// and a callable equals nothing, itself included.
pub proof fn law_equal_kinds(a: ObjectModel, b: ObjectModel)
    ensures
        equals(a, b) ==> (a is Nil <==> b is Nil) && (a is Bool <==> b is Bool) && (a is Number
            <==> b is Number) && (a is String <==> b is String),
        a is Nil && b is Nil ==> equals(a, b),
        callable(a) || callable(b) ==> !equals(a, b),
        equals(a, b) == equals(b, a),
{
}

/// Numbers are equal as doubles are: a NaN is not equal to itself, and the
/// two zeros are equal to each other.
pub proof fn law_equal_numbers(x: u64, y: u64)
    ensures
        number::nan(x) ==> !equals(ObjectModel::Number(x), ObjectModel::Number(x)),
        !number::nan(x) ==> equals(ObjectModel::Number(x), ObjectModel::Number(x)),
        equals(ObjectModel::Number(number::ZERO), ObjectModel::Number(number::SIGN)),
        equals(ObjectModel::Number(x), ObjectModel::Number(y)) && x != y ==> number::magnitude(x)
            == 0 && number::magnitude(y) == 0,
{
}

} // verus!
