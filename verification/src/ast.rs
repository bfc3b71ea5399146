//! The parsed form of one expression: an atomic literal (integer, string,
//! boolean, symbol, nil) or a compound form holding an ordered sequence of
//! sub-nodes. A symbol in head position of a compound form names a command.

use vstd::prelude::*;

use crate::values::{lemma_value_views, value_views, Value, ValueModel};

verus! {

/// One parsed expression.
#[derive(Debug, PartialEq)]
pub enum Ast {
    /// Integer literal.
    Int(i64),
    /// String literal.
    Str(String),
    /// Boolean literal.
    Bool(bool),
    /// A symbol; in head position it names a command.
    Symbol(String),
    /// A compound form.
    List(Vec<Ast>),
    /// The empty form `()`.
    Nil,
}

/// Mathematical model of an `Ast`.
pub ghost enum AstModel {
    Int(int),
    Str(Seq<char>),
    Bool(bool),
    Symbol(Seq<char>),
    List(Seq<AstModel>),
    Nil,
}

impl View for Ast {
    type V = AstModel;

    open spec fn view(&self) -> AstModel
        decreases self,
    {
        match self {
            Ast::Int(i) => AstModel::Int(*i as int),
            Ast::Str(s) => AstModel::Str(s@),
            Ast::Bool(b) => AstModel::Bool(*b),
            Ast::Symbol(s) => AstModel::Symbol(s@),
            Ast::List(items) => AstModel::List(ast_views(items@)),
            Ast::Nil => AstModel::Nil,
        }
    }
}

/// The models of a sequence of syntax nodes, element by element.
pub open spec fn ast_views(s: Seq<Ast>) -> Seq<AstModel>
    decreases s,
{
    if s.len() == 0 {
        Seq::empty()
    } else {
        ast_views(s.drop_last()).push(s.last()@)
    }
}

/// `ast_views` maps the sequence pointwise.
pub broadcast proof fn lemma_ast_views(s: Seq<Ast>)
    ensures
        (#[trigger] ast_views(s)).len() == s.len(),
        forall|i: int| 0 <= i < s.len() ==> ast_views(s)[i] == s[i]@,
    decreases s,
{
    if s.len() > 0 {
        lemma_ast_views(s.drop_last());
        assert(ast_views(s) == ast_views(s.drop_last()).push(s.last()@));
        assert forall|i: int| 0 <= i < s.len() implies ast_views(s)[i] == s[i]@ by {
            if i < s.len() - 1 {
                assert(ast_views(s)[i] == ast_views(s.drop_last())[i]);
                assert(s.drop_last()[i] == s[i]);
            }
        }
    } else {
        assert(ast_views(s) == Seq::<AstModel>::empty());
    }
}

/// The value denoted by a literal node: symbols denote their text, the empty
/// form denotes nil, and compound forms denote lists of the denoted elements.
pub open spec fn value_of_ast(a: AstModel) -> ValueModel
    decreases a,
{
    match a {
        AstModel::Int(i) => ValueModel::Int(i),
        AstModel::Str(s) => ValueModel::Str(s),
        AstModel::Bool(b) => ValueModel::Bool(b),
        AstModel::Symbol(s) => ValueModel::Str(s),
        AstModel::List(items) => ValueModel::List(values_of_asts(items)),
        AstModel::Nil => ValueModel::Nil,
    }
}

/// The values denoted by a sequence of nodes.
pub open spec fn values_of_asts(s: Seq<AstModel>) -> Seq<ValueModel>
    decreases s,
{
    if s.len() == 0 {
        Seq::empty()
    } else {
        values_of_asts(s.drop_last()).push(value_of_ast(s.last()))
    }
}

/// The syntax form of a value: text becomes a string literal, never a symbol.
pub open spec fn ast_of_value(v: ValueModel) -> AstModel
    decreases v,
{
    match v {
        ValueModel::Int(i) => AstModel::Int(i),
        ValueModel::Str(s) => AstModel::Str(s),
        ValueModel::Bool(b) => AstModel::Bool(b),
        ValueModel::List(items) => AstModel::List(asts_of_values(items)),
        ValueModel::Nil => AstModel::Nil,
    }
}

/// The syntax forms of a sequence of values.
pub open spec fn asts_of_values(s: Seq<ValueModel>) -> Seq<AstModel>
    decreases s,
{
    if s.len() == 0 {
        Seq::empty()
    } else {
        asts_of_values(s.drop_last()).push(ast_of_value(s.last()))
    }
}

/// Round trip: turning a value into syntax and reading it back yields an
/// equal value, for every value, nested lists included.
pub proof fn lemma_value_ast_round_trip(v: ValueModel)
    ensures
        value_of_ast(ast_of_value(v)) == v,
    decreases v,
{
    match v {
        ValueModel::List(items) => {
            lemma_values_asts_round_trip(items);
        },
        _ => {},
    }
}

/// Round trip of a sequence of values through syntax forms.
pub proof fn lemma_values_asts_round_trip(s: Seq<ValueModel>)
    ensures
        values_of_asts(asts_of_values(s)) == s,
    decreases s,
{
    if s.len() == 0 {
        assert(values_of_asts(asts_of_values(s)) =~= s);
    } else {
        lemma_values_asts_round_trip(s.drop_last());
        lemma_value_ast_round_trip(s.last());
        let m = asts_of_values(s);
        assert(m.drop_last() =~= asts_of_values(s.drop_last()));
        assert(m.last() == ast_of_value(s.last()));
        assert(values_of_asts(m) =~= s);
    }
}

impl Value {
    /// The value denoted by a syntax node. Every node of the closed syntax
    /// type denotes a value, so this conversion is total.
    pub fn from_ast(ast: &Ast) -> (r: Value)
        ensures
            r@ == value_of_ast(ast@),
        decreases ast,
    {
        match ast {
            Ast::Int(i) => Value::Int(*i),
            Ast::Str(s) => Value::Str(s.clone()),
            Ast::Bool(b) => Value::Bool(*b),
            Ast::Symbol(s) => Value::Str(s.clone()),
            Ast::Nil => Value::Nil,
            Ast::List(items) => {
                let ghost models = ast_views(items@);
                proof {
                    lemma_ast_views(items@);
                }
                let mut out: Vec<Value> = Vec::new();
                let mut i: usize = 0;
                while i < items.len()
                    invariant
                        i <= items@.len(),
                        models == ast_views(items@),
                        models.len() == items@.len(),
                        forall|j: int| 0 <= j < items@.len() ==> models[j] == items@[j]@,
                        out@.len() == i,
                        forall|j: int| 0 <= j < i ==> out@[j]@ == value_of_ast(models[j]),
                        decreases_to!(ast => items@),
                    decreases items@.len() - i,
                {
                    proof {
                        assert(decreases_to!(items@ => items@[i as int]));
                    }
                    out.push(Value::from_ast(&items[i]));
                    i = i + 1;
                }
                proof {
                    lemma_value_views(out@);
                    lemma_values_of_asts_pointwise(models);
                    assert(value_views(out@) =~= values_of_asts(models));
                }
                Value::List(out)
            },
        }
    }

    /// The syntax form of this value, fit for re-evaluation. Text always
    /// becomes a string literal, so a converted value never holds a symbol.
    pub fn to_ast(&self) -> (r: Ast)
        ensures
            r@ == ast_of_value(self@),
        decreases self,
    {
        match self {
            Value::Int(i) => Ast::Int(*i),
            Value::Str(s) => Ast::Str(s.clone()),
            Value::Bool(b) => Ast::Bool(*b),
            Value::Nil => Ast::Nil,
            Value::List(items) => {
                let ghost models = value_views(items@);
                proof {
                    lemma_value_views(items@);
                }
                let mut out: Vec<Ast> = Vec::new();
                let mut i: usize = 0;
                while i < items.len()
                    invariant
                        i <= items@.len(),
                        models == value_views(items@),
                        models.len() == items@.len(),
                        forall|j: int| 0 <= j < items@.len() ==> models[j] == items@[j]@,
                        out@.len() == i,
                        forall|j: int| 0 <= j < i ==> out@[j]@ == ast_of_value(models[j]),
                        decreases_to!(self => items@),
                    decreases items@.len() - i,
                {
                    proof {
                        assert(decreases_to!(items@ => items@[i as int]));
                    }
                    out.push(items[i].to_ast());
                    i = i + 1;
                }
                proof {
                    lemma_ast_views(out@);
                    lemma_asts_of_values_pointwise(models);
                    assert(ast_views(out@) =~= asts_of_values(models));
                }
                Ast::List(out)
            },
        }
    }
}

/// `values_of_asts` maps the sequence pointwise.
pub proof fn lemma_values_of_asts_pointwise(s: Seq<AstModel>)
    ensures
        values_of_asts(s).len() == s.len(),
        forall|i: int| 0 <= i < s.len() ==> values_of_asts(s)[i] == value_of_ast(s[i]),
    decreases s,
{
    if s.len() > 0 {
        lemma_values_of_asts_pointwise(s.drop_last());
        assert forall|i: int| 0 <= i < s.len() implies values_of_asts(s)[i] == value_of_ast(
            s[i],
        ) by {
            if i < s.len() - 1 {
                assert(values_of_asts(s)[i] == values_of_asts(s.drop_last())[i]);
                assert(s.drop_last()[i] == s[i]);
            }
        }
    }
}

/// `asts_of_values` maps the sequence pointwise.
pub proof fn lemma_asts_of_values_pointwise(s: Seq<ValueModel>)
    ensures
        asts_of_values(s).len() == s.len(),
        forall|i: int| 0 <= i < s.len() ==> asts_of_values(s)[i] == ast_of_value(s[i]),
    decreases s,
{
    if s.len() > 0 {
        lemma_asts_of_values_pointwise(s.drop_last());
        assert forall|i: int| 0 <= i < s.len() implies asts_of_values(s)[i] == ast_of_value(
            s[i],
        ) by {
            if i < s.len() - 1 {
                assert(asts_of_values(s)[i] == asts_of_values(s.drop_last())[i]);
                assert(s.drop_last()[i] == s[i]);
            }
        }
    }
}

impl Clone for Ast {
    /// A clone has the same model as the original.
    fn clone(&self) -> (r: Self)
        ensures
            r@ == self@,
        decreases self,
    {
        match self {
            Ast::Int(i) => Ast::Int(*i),
            Ast::Str(s) => Ast::Str(s.clone()),
            Ast::Bool(b) => Ast::Bool(*b),
            Ast::Symbol(s) => Ast::Symbol(s.clone()),
            Ast::Nil => Ast::Nil,
            Ast::List(items) => {
                let ghost models = ast_views(items@);
                proof {
                    lemma_ast_views(items@);
                }
                let mut out: Vec<Ast> = Vec::new();
                let mut i: usize = 0;
                while i < items.len()
                    invariant
                        i <= items@.len(),
                        models == ast_views(items@),
                        models.len() == items@.len(),
                        forall|j: int| 0 <= j < items@.len() ==> models[j] == items@[j]@,
                        out@.len() == i,
                        forall|j: int| 0 <= j < i ==> out@[j]@ == models[j],
                        decreases_to!(self => items@),
                    decreases items@.len() - i,
                {
                    proof {
                        assert(decreases_to!(items@ => items@[i as int]));
                    }
                    out.push(items[i].clone());
                    i = i + 1;
                }
                proof {
                    lemma_ast_views(out@);
                    assert(ast_views(out@) =~= models);
                }
                Ast::List(out)
            },
        }
    }
}

} // verus!
