use crate::number::num_text;
use crate::object::Object;
use crate::vm::InterpretResult;
use vstd::prelude::*;

verus! {

/// A runtime value. Numbers are IEEE binary64 values, carried as their
/// 64-bit patterns (see `crate::number`).
pub enum Value {
    Boolean(bool),
    Number(u64),
    Nil,
    Obj(Object),
}

/// The mathematical shape of a runtime value: a string is its character
/// sequence, a number its bit pattern.
pub enum AbsValue {
    Bool(bool),
    Num(u64),
    Nil,
    Str(Seq<char>),
}

impl View for Value {
    type V = AbsValue;

    open spec fn view(&self) -> AbsValue {
        match self {
            Value::Boolean(b) => AbsValue::Bool(*b),
            Value::Number(n) => AbsValue::Num(*n),
            Value::Nil => AbsValue::Nil,
            Value::Obj(Object::Str(s)) => AbsValue::Str(s@),
        }
    }
}

impl DeepView for Value {
    type V = AbsValue;

    open spec fn deep_view(&self) -> AbsValue {
        self.view()
    }
}

/// The falsy values: `nil` and `false`. Everything else, zero and the
/// empty string included, is truthy.
pub open spec fn falsy(v: AbsValue) -> bool {
    v == AbsValue::Nil || v == AbsValue::Bool(false)
}

/// Structural equality of values: tags must agree, numbers compare by
/// their bit patterns, strings by their characters.
pub open spec fn val_eq(a: AbsValue, b: AbsValue) -> bool {
    a == b
}

impl Value {
    pub fn is_number(&self) -> (r: bool)
        ensures
            r == (self@ is Num),
    {
        matches!(self, Value::Number(_))
    }

    pub fn is_string(&self) -> (r: bool)
        ensures
            r == (self@ is Str),
    {
        matches!(self, Value::Obj(Object::Str(_)))
    }

    pub fn is_falsy(&self) -> (r: bool)
        ensures
            r == falsy(self@),
    {
        matches!(self, Value::Nil | Value::Boolean(false))
    }

    /// An explicit copy; the string arm owns its text, so values are not
    /// `Copy`.
    pub fn duplicate(&self) -> (r: Value)
        ensures
            r == *self,
    {
        match self {
            Value::Boolean(b) => Value::Boolean(*b),
            Value::Number(n) => Value::Number(*n),
            Value::Nil => Value::Nil,
            Value::Obj(o) => Value::Obj(o.duplicate()),
        }
    }

    /// Structural equality, `val_eq`.
    pub fn equals(&self, other: &Value) -> (r: bool)
        ensures
            r == val_eq(self@, other@),
    {
        match self {
            Value::Boolean(a) => match other {
                Value::Boolean(b) => *a == *b,
                _ => false,
            },
            Value::Number(a) => match other {
                Value::Number(b) => *a == *b,
                _ => false,
            },
            Value::Nil => matches!(other, Value::Nil),
            Value::Obj(Object::Str(a)) => match other {
                Value::Obj(Object::Str(b)) => *a == *b,
                _ => false,
            },
        }
    }
}

/// Equality is reflexive: every value equals itself, the string and
/// number arms included.
pub proof fn lemma_val_eq_reflexive(v: AbsValue)
    ensures
        val_eq(v, v),
{
}

/// Equality never crosses tags: values of different shapes are unequal.
pub proof fn lemma_val_eq_distinct_tags(a: AbsValue, b: AbsValue)
    ensures
        !((a is Bool && b is Bool) || (a is Num && b is Num) || (a is Nil && b is Nil) || (a is Str
            && b is Str)) ==> !val_eq(a, b),
{
}

/// The text a value prints as: numbers in plain decimal, booleans as
/// `true` / `false`, nil as `nil`, strings as their raw contents.
pub open spec fn format_abs(v: AbsValue) -> Seq<char> {
    match v {
        AbsValue::Bool(b) => if b {
            seq!['t', 'r', 'u', 'e']
        } else {
            seq!['f', 'a', 'l', 's', 'e']
        },
        AbsValue::Num(n) => num_text(n),
        AbsValue::Nil => seq!['n', 'i', 'l'],
        AbsValue::Str(s) => s,
    }
}

/// Renders a value as `format_abs` describes.
pub fn format_value(v: &Value) -> (r: String)
    ensures
        r@ == format_abs(v@),
{
    match v {
        Value::Boolean(b) => {
            if *b {
                proof {
                    reveal_strlit("true");
                    assert("true"@ =~= seq!['t', 'r', 'u', 'e']);
                }
                String::from_str("true")
            } else {
                proof {
                    reveal_strlit("false");
                    assert("false"@ =~= seq!['f', 'a', 'l', 's', 'e']);
                }
                String::from_str("false")
            }
        },
        Value::Number(n) => crate::number::number_text(*n),
        Value::Nil => {
            proof {
                reveal_strlit("nil");
                assert("nil"@ =~= seq!['n', 'i', 'l']);
            }
            String::from_str("nil")
        },
        Value::Obj(Object::Str(s)) => s.clone(),
    }
}

/// The constant pool of a chunk: an append-only sequence of values.
pub struct ValueArray {
    values: Vec<Value>,
}

impl ValueArray {
    /// The values held, as their mathematical shapes.
    pub closed spec fn vals(&self) -> Seq<AbsValue> {
        Seq::new(self.values@.len(), |i: int| self.values@[i]@)
    }

    pub fn new() -> (r: ValueArray)
        ensures
            r.vals() == Seq::<AbsValue>::empty(),
    {
        let r = ValueArray { values: Vec::new() };
        proof {
            assert(r.vals() =~= Seq::<AbsValue>::empty());
        }
        r
    }

    /// Appends a value and returns its index.
    pub fn write(&mut self, value: Value) -> (idx: usize)
        ensures
            final (self).vals() == old(self).vals().push(value@),
            idx == old(self).vals().len(),
    {
        let count = self.values.len();
        self.values.push(value);
        proof {
            assert(self.vals() =~= old(self).vals().push(value@));
        }
        count
    }

    /// How many values are held.
    pub fn count(&self) -> (n: usize)
        ensures
            n == self.vals().len(),
    {
        self.values.len()
    }

    pub fn free(&mut self)
        ensures
            final (self).vals() == Seq::<AbsValue>::empty(),
    {
        self.values.clear();
        proof {
            assert(self.vals() =~= Seq::<AbsValue>::empty());
        }
    }

    /// The text the value at `which` prints as.
    pub fn print_value(&self, which: usize) -> (r: String)
        requires
            which < self.vals().len(),
        ensures
            r@ == format_abs(self.vals()[which as int]),
    {
        format_value(&self.values[which])
    }

    /// The value at `which`, or `CompileError` when the index is out of
    /// range: a chunk that asks for a missing constant was not produced
    /// by the compiler.
    pub fn read_value(&self, which: usize) -> (r: Result<Value, InterpretResult>)
        ensures
            match r {
                Ok(v) => which < self.vals().len() && v@ == self.vals()[which as int],
                Err(e) => which >= self.vals().len() && e == InterpretResult::CompileError,
            },
    {
        if which < self.values.len() {
            Ok(self.values[which].duplicate())
        } else {
            Err(InterpretResult::CompileError)
        }
    }
}

} // verus!
