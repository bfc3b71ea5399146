//! The interpreter's runtime value model: a closed set of data shapes that
//! expressions evaluate to and that command handlers exchange.

use vstd::prelude::*;
use vstd::string::*;

use crate::strutil::{i64_to_string, int_str, push_char};

verus! {

/// Runtime value of the interpreter.
#[derive(Debug, PartialEq)]
pub enum Value {
    /// 64-bit signed integer.
    Int(i64),
    /// Text.
    Str(String),
    /// Boolean.
    Bool(bool),
    /// Ordered sequence of values; order is significant.
    List(Vec<Value>),
    /// The nil value.
    Nil,
}

/// Mathematical model of a `Value`: integers are unbounded, text is a
/// sequence of characters, lists are sequences of models.
pub ghost enum ValueModel {
    Int(int),
    Str(Seq<char>),
    Bool(bool),
    List(Seq<ValueModel>),
    Nil,
}

impl View for Value {
    type V = ValueModel;

    open spec fn view(&self) -> ValueModel
        decreases self,
    {
        match self {
            Value::Int(i) => ValueModel::Int(*i as int),
            Value::Str(s) => ValueModel::Str(s@),
            Value::Bool(b) => ValueModel::Bool(*b),
            Value::List(items) => ValueModel::List(value_views(items@)),
            Value::Nil => ValueModel::Nil,
        }
    }
}

/// The models of a sequence of values, element by element.
pub open spec fn value_views(s: Seq<Value>) -> Seq<ValueModel>
    decreases s,
{
    if s.len() == 0 {
        Seq::empty()
    } else {
        value_views(s.drop_last()).push(s.last()@)
    }
}

/// `value_views` maps the sequence pointwise.
pub broadcast proof fn lemma_value_views(s: Seq<Value>)
    ensures
        (#[trigger] value_views(s)).len() == s.len(),
        forall|i: int| 0 <= i < s.len() ==> value_views(s)[i] == s[i]@,
    decreases s,
{
    if s.len() > 0 {
        lemma_value_views(s.drop_last());
        assert(value_views(s) == value_views(s.drop_last()).push(s.last()@));
        assert forall|i: int| 0 <= i < s.len() implies value_views(s)[i] == s[i]@ by {
            if i < s.len() - 1 {
                assert(value_views(s)[i] == value_views(s.drop_last())[i]);
                assert(s.drop_last()[i] == s[i]);
            }
        }
    } else {
        assert(value_views(s) == Seq::<ValueModel>::empty());
    }
}

impl Value {
    /// Truthiness: nil, the integer zero and false are falsy; everything
    /// else, including the empty string and the empty list, is truthy.
    pub fn is_truthy(&self) -> (r: bool)
        ensures
            r == self@.is_truthy_spec(),
    {
        match self {
            Value::Nil => false,
            Value::Int(i) => *i != 0,
            Value::Bool(b) => *b,
            _ => true,
        }
    }
}

impl ValueModel {
    /// Model-level truthiness rule.
    pub open spec fn is_truthy_spec(self) -> bool {
        match self {
            ValueModel::Nil => false,
            ValueModel::Int(i) => i != 0,
            ValueModel::Bool(b) => b,
            _ => true,
        }
    }
}

/// Textual rendering of a value: integers and booleans in their usual
/// spelling, nil as the literal `nil`, strings verbatim, and lists as a
/// parenthesized, space-separated sequence of rendered elements.
pub open spec fn val_str(v: ValueModel) -> Seq<char>
    decreases v,
{
    match v {
        ValueModel::Nil => "nil"@,
        ValueModel::Int(i) => int_str(i),
        ValueModel::Str(s) => s,
        ValueModel::Bool(b) => if b {
            "true"@
        } else {
            "false"@
        },
        ValueModel::List(items) => seq!['('] + vals_str(items) + seq![')'],
    }
}

/// The renderings of a sequence of values, joined with single spaces.
pub open spec fn vals_str(items: Seq<ValueModel>) -> Seq<char>
    decreases items,
{
    if items.len() == 0 {
        Seq::empty()
    } else if items.len() == 1 {
        val_str(items[0])
    } else {
        val_str(items[0]) + seq![' '] + vals_str(items.drop_first())
    }
}

/// Appending one element extends the space-joined rendering at the end.
pub proof fn lemma_vals_str_snoc(items: Seq<ValueModel>, x: ValueModel)
    ensures
        vals_str(items.push(x)) == if items.len() == 0 {
            val_str(x)
        } else {
            vals_str(items) + seq![' '] + val_str(x)
        },
    decreases items.len(),
{
    let p = items.push(x);
    if items.len() == 0 {
        assert(p.len() == 1);
        assert(p[0] == x);
    } else {
        assert(p[0] == items[0]);
        assert(p.drop_first() =~= items.drop_first().push(x));
        lemma_vals_str_snoc(items.drop_first(), x);
        if items.len() == 1 {
            assert(vals_str(items) == val_str(items[0]));
            assert(vals_str(p) == val_str(p[0]) + seq![' '] + vals_str(p.drop_first()));
        }
    }
}

impl Value {
    /// Render the value as text, per `val_str`.
    pub fn to_string(&self) -> (r: String)
        ensures
            r@ == val_str(self@),
        decreases self,
    {
        match self {
            Value::Nil => String::from_str("nil"),
            Value::Int(i) => i64_to_string(*i),
            Value::Str(s) => s.clone(),
            Value::Bool(b) => {
                if *b {
                    String::from_str("true")
                } else {
                    String::from_str("false")
                }
            },
            Value::List(items) => {
                let ghost models = value_views(items@);
                proof {
                    lemma_value_views(items@);
                }
                let mut r = String::new();
                push_char(&mut r, '(');
                let mut i: usize = 0;
                while i < items.len()
                    invariant
                        i <= items@.len(),
                        models == value_views(items@),
                        models.len() == items@.len(),
                        forall|j: int| 0 <= j < items@.len() ==> models[j] == items@[j]@,
                        r@ =~= seq!['('] + vals_str(models.take(i as int)),
                        decreases_to!(self => items@),
                    decreases items@.len() - i,
                {
                    if i > 0 {
                        push_char(&mut r, ' ');
                    }
                    proof {
                        assert(decreases_to!(items@ => items@[i as int]));
                    }
                    let piece = items[i].to_string();
                    r.append(piece.as_str());
                    proof {
                        lemma_vals_str_snoc(models.take(i as int), models[i as int]);
                        assert(models.take(i + 1) =~= models.take(i as int).push(
                            models[i as int],
                        ));
                        assert(r@ =~= seq!['('] + vals_str(models.take(i + 1)));
                    }
                    i = i + 1;
                }
                push_char(&mut r, ')');
                proof {
                    assert(models.take(items@.len() as int) =~= models);
                    assert(r@ =~= seq!['('] + vals_str(models) + seq![')']);
                }
                r
            },
        }
    }
}

impl Clone for Value {
    /// A clone has the same model as the original.
    fn clone(&self) -> (r: Self)
        ensures
            r@ == self@,
        decreases self,
    {
        match self {
            Value::Nil => Value::Nil,
            Value::Int(i) => Value::Int(*i),
            Value::Str(s) => Value::Str(s.clone()),
            Value::Bool(b) => Value::Bool(*b),
            Value::List(items) => {
                let ghost models = value_views(items@);
                proof {
                    lemma_value_views(items@);
                }
                let mut out: Vec<Value> = Vec::new();
                let mut i: usize = 0;
                while i < items.len()
                    invariant
                        i <= items@.len(),
                        models == value_views(items@),
                        models.len() == items@.len(),
                        forall|j: int| 0 <= j < items@.len() ==> models[j] == items@[j]@,
                        out@.len() == i,
                        forall|j: int| 0 <= j < i ==> out@[j]@ == models[j],
                        decreases_to!(self => items@),
                    decreases items@.len() - i,
                {
                    proof {
                        assert(decreases_to!(items@ => items@[i as int]));
                    }
                    out.push(items[i].clone());
                    i = i + 1;
                }
                proof {
                    lemma_value_views(out@);
                    assert(value_views(out@) =~= models);
                }
                Value::List(out)
            },
        }
    }
}

/// A vector of text values from a vector of strings.
pub fn strings_to_values(strings: Vec<String>) -> (r: Vec<Value>)
    ensures
        value_views(r@).len() == strings@.len(),
        forall|i: int|
            0 <= i < strings@.len() ==> value_views(r@)[i] == ValueModel::Str(strings@[i]@),
{
    let mut r: Vec<Value> = Vec::new();
    let mut i: usize = 0;
    while i < strings.len()
        invariant
            i <= strings@.len(),
            r@.len() == i,
            forall|j: int| 0 <= j < i ==> r@[j]@ == ValueModel::Str(strings@[j]@),
        decreases strings@.len() - i,
    {
        r.push(Value::Str(strings[i].clone()));
        i = i + 1;
    }
    proof {
        lemma_value_views(r@);
    }
    r
}

/// A vector of integer values from a vector of integers.
pub fn ints_to_values(ints: Vec<i64>) -> (r: Vec<Value>)
    ensures
        value_views(r@).len() == ints@.len(),
        forall|i: int| 0 <= i < ints@.len() ==> value_views(r@)[i] == ValueModel::Int(ints@[i] as int),
{
    let mut r: Vec<Value> = Vec::new();
    let mut i: usize = 0;
    while i < ints.len()
        invariant
            i <= ints@.len(),
            r@.len() == i,
            forall|j: int| 0 <= j < i ==> r@[j]@ == ValueModel::Int(ints@[j] as int),
        decreases ints@.len() - i,
    {
        r.push(Value::Int(ints[i]));
        i = i + 1;
    }
    proof {
        lemma_value_views(r@);
    }
    r
}

/// A vector of boolean values from a vector of booleans.
pub fn bools_to_values(bools: Vec<bool>) -> (r: Vec<Value>)
    ensures
        value_views(r@).len() == bools@.len(),
        forall|i: int| 0 <= i < bools@.len() ==> value_views(r@)[i] == ValueModel::Bool(bools@[i]),
{
    let mut r: Vec<Value> = Vec::new();
    let mut i: usize = 0;
    while i < bools.len()
        invariant
            i <= bools@.len(),
            r@.len() == i,
            forall|j: int| 0 <= j < i ==> r@[j]@ == ValueModel::Bool(bools@[j]),
        decreases bools@.len() - i,
    {
        r.push(Value::Bool(bools[i]));
        i = i + 1;
    }
    proof {
        lemma_value_views(r@);
    }
    r
}

/// The error text for a value of the wrong shape: the expectation, a colon
/// and space, and the rendering of the offending value.
pub open spec fn expected_msg(what: Seq<char>, v: ValueModel) -> Seq<char> {
    what + val_str(v)
}

fn expected_error(what: &str, v: &Value) -> (r: String)
    ensures
        r@ == expected_msg(what@, v@),
{
    let mut r = String::from_str(what);
    let rendered = v.to_string();
    r.append(rendered.as_str());
    r
}

/// The integer held by an integer value; an error naming the value otherwise.
pub fn value_to_int(value: &Value) -> (r: Result<i64, String>)
    ensures
        match r {
            Result::Ok(i) => value@ == ValueModel::Int(i as int),
            Result::Err(e) => !(value@ is Int) && e@ == expected_msg(
                "Expected integer, got: "@,
                value@,
            ),
        },
{
    match value {
        Value::Int(i) => Ok(*i),
        _ => Err(expected_error("Expected integer, got: ", value)),
    }
}

/// The text held by a string value; an error naming the value otherwise.
pub fn value_to_string(value: &Value) -> (r: Result<String, String>)
    ensures
        match r {
            Result::Ok(s) => value@ == ValueModel::Str(s@),
            Result::Err(e) => !(value@ is Str) && e@ == expected_msg(
                "Expected string, got: "@,
                value@,
            ),
        },
{
    match value {
        Value::Str(s) => Ok(s.clone()),
        _ => Err(expected_error("Expected string, got: ", value)),
    }
}

/// The elements held by a list value; an error naming the value otherwise.
pub fn value_to_list(value: &Value) -> (r: Result<Vec<Value>, String>)
    ensures
        match r {
            Result::Ok(items) => value@ == ValueModel::List(value_views(items@)),
            Result::Err(e) => !(value@ is List) && e@ == expected_msg(
                "Expected list, got: "@,
                value@,
            ),
        },
{
    match value {
        Value::List(items) => {
            let ghost models = value_views(items@);
            proof {
                lemma_value_views(items@);
            }
            let mut out: Vec<Value> = Vec::new();
            let mut i: usize = 0;
            while i < items.len()
                invariant
                    i <= items@.len(),
                    models == value_views(items@),
                    models.len() == items@.len(),
                    forall|j: int| 0 <= j < items@.len() ==> models[j] == items@[j]@,
                    out@.len() == i,
                    forall|j: int| 0 <= j < i ==> out@[j]@ == models[j],
                decreases items@.len() - i,
            {
                out.push(items[i].clone());
                i = i + 1;
            }
            proof {
                lemma_value_views(out@);
                assert(value_views(out@) =~= models);
            }
            Ok(out)
        },
        _ => Err(expected_error("Expected list, got: ", value)),
    }
}

/// The boolean held by a boolean value; an error naming the value otherwise.
pub fn value_to_bool(value: &Value) -> (r: Result<bool, String>)
    ensures
        match r {
            Result::Ok(b) => value@ == ValueModel::Bool(b),
            Result::Err(e) => !(value@ is Bool) && e@ == expected_msg(
                "Expected boolean, got: "@,
                value@,
            ),
        },
{
    match value {
        Value::Bool(b) => Ok(*b),
        _ => Err(expected_error("Expected boolean, got: ", value)),
    }
}

} // verus!
