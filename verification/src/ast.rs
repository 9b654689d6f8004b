//! The tree model of parsed programs and of runtime values.
//!
//! A parsed program is an [`Expression`]: an atom (number, symbol or
//! string literal) or a list of expressions.  Evaluation produces a
//! [`Value`]: a number, string, symbol, list of values, the unit value
//! for forms with no meaningful result, or a closure.  Numbers are
//! exact rationals held as a numerator and a positive denominator, so
//! fractional literals such as `1.5` are represented without rounding.

use vstd::prelude::*;

verus! {

/// An exact rational number `num / den`.  Well-formed values keep
/// `den > 0`; results are not reduced to lowest terms, and numeric
/// equality is decided by cross-multiplication.
#[derive(Debug, Clone, Copy, PartialEq, Eq, Structural)]
pub struct Rational {
    pub num: i64,
    pub den: i64,
}

impl Rational {
    /// The denominator is positive.
    pub open spec fn wf(self) -> bool {
        self.den > 0
    }

    /// Numeric equality of two rationals, by cross-multiplication.
    pub open spec fn same_value(self, other: Rational) -> bool {
        self.num * other.den == other.num * self.den
    }

    /// The whole number `n`.
    pub fn from_int(n: i64) -> (r: Rational)
        ensures
            r == (Rational { num: n, den: 1 }),
    {
        Rational { num: n, den: 1 }
    }
}

/// Ghost shape of an expression tree: the same tree over mathematical
/// sequences.
#[verifier::ext_equal]
pub enum ExprModel {
    Number(Rational),
    Symbol(Seq<char>),
    Str(Seq<char>),
    List(Seq<ExprModel>),
}

/// An indivisible literal expression.
#[derive(Debug)]
pub enum Atom {
    Number(Rational),
    Symbol(Vec<char>),
    Str(Vec<char>),
}

impl View for Atom {
    type V = ExprModel;

    open spec fn view(&self) -> ExprModel {
        match self {
            Atom::Number(r) => ExprModel::Number(*r),
            Atom::Symbol(s) => ExprModel::Symbol(s@),
            Atom::Str(s) => ExprModel::Str(s@),
        }
    }
}

/// An S-expression: an atom, or an ordered (possibly empty) list of
/// sub-expressions.  The empty list is the canonical "nil" form.
#[derive(Debug)]
pub enum Expression {
    Atom(Atom),
    List(Vec<Expression>),
}

/// The ghost shape of an expression.
pub open spec fn expr_model(e: Expression) -> ExprModel
    decreases e,
{
    match e {
        Expression::Atom(a) => a@,
        Expression::List(es) => ExprModel::List(
            Seq::new(
                es@.len(),
                |i: int|
                    if 0 <= i < es@.len() {
                        expr_model(es@[i])
                    } else {
                        ExprModel::List(Seq::empty())
                    },
            ),
        ),
    }
}

impl View for Expression {
    type V = ExprModel;

    open spec fn view(&self) -> ExprModel {
        expr_model(*self)
    }
}

impl Clone for Atom {
    fn clone(&self) -> (r: Self)
        ensures
            r@ == self@,
    {
        match self {
            Atom::Number(n) => Atom::Number(*n),
            Atom::Symbol(s) => Atom::Symbol(crate::copy_vec(s)),
            Atom::Str(s) => Atom::Str(crate::copy_vec(s)),
        }
    }
}

impl Clone for Expression {
    fn clone(&self) -> (r: Self)
        ensures
            r@ == self@,
        decreases self,
    {
        match self {
            Expression::Atom(a) => Expression::Atom(a.clone()),
            Expression::List(es) => {
                let copied = clone_expressions(es);
                let r = Expression::List(copied);
                proof {
                    assert(r@->List_0 =~= self@->List_0);
                }
                r
            },
        }
    }
}

/// Deep copy of a list of expressions.
#[verifier::loop_isolation(false)]
fn clone_expressions(es: &Vec<Expression>) -> (r: Vec<Expression>)
    ensures
        r@.len() == es@.len(),
        forall|i: int| 0 <= i < es@.len() ==> r@[i]@ == es@[i]@,
    decreases es,
{
    let mut r: Vec<Expression> = Vec::new();
    let mut i: usize = 0;
    while i < es.len()
        invariant
            i <= es@.len(),
            r@.len() == i,
            forall|j: int| 0 <= j < i ==> r@[j]@ == es@[j]@,
        decreases es@.len() - i,
    {
        r.push(es[i].clone());
        i += 1;
    }
    r
}

/// Ghost shape of a runtime value.
#[verifier::ext_equal]
pub enum ValueModel {
    Number(Rational),
    Str(Seq<char>),
    Symbol(Seq<char>),
    List(Seq<ValueModel>),
    Unit,
    Closure { params: Seq<Seq<char>>, body: ExprModel, env: int },
}

/// A callable value: parameter names, a body expression, and the frame
/// of the environment that was current at its definition site.
#[derive(Debug)]
pub struct ClosureValue {
    pub params: Vec<Vec<char>>,
    pub body: Expression,
    pub env: usize,
}

/// The runtime result of evaluation.
#[derive(Debug)]
pub enum Value {
    Number(Rational),
    Str(Vec<char>),
    Symbol(Vec<char>),
    List(Vec<Value>),
    Unit,
    Closure(ClosureValue),
}

/// The ghost shape of a value.
pub open spec fn value_model(v: Value) -> ValueModel
    decreases v,
{
    match v {
        Value::Number(r) => ValueModel::Number(r),
        Value::Str(s) => ValueModel::Str(s@),
        Value::Symbol(s) => ValueModel::Symbol(s@),
        Value::List(vs) => ValueModel::List(
            Seq::new(
                vs@.len(),
                |i: int|
                    if 0 <= i < vs@.len() {
                        value_model(vs@[i])
                    } else {
                        ValueModel::Unit
                    },
            ),
        ),
        Value::Unit => ValueModel::Unit,
        Value::Closure(c) => ValueModel::Closure {
            params: Seq::new(c.params@.len(), |i: int| c.params@[i]@),
            body: expr_model(c.body),
            env: c.env as int,
        },
    }
}

impl View for Value {
    type V = ValueModel;

    open spec fn view(&self) -> ValueModel {
        value_model(*self)
    }
}

impl Clone for Value {
    fn clone(&self) -> (r: Self)
        ensures
            r@ == self@,
        decreases self,
    {
        match self {
            Value::Number(n) => Value::Number(*n),
            Value::Str(s) => Value::Str(crate::copy_vec(s)),
            Value::Symbol(s) => Value::Symbol(crate::copy_vec(s)),
            Value::List(vs) => {
                let copied = clone_values(vs);
                let r = Value::List(copied);
                proof {
                    assert(r@->List_0 =~= self@->List_0);
                }
                r
            },
            Value::Unit => Value::Unit,
            Value::Closure(c) => {
                let params = clone_names(&c.params);
                let r = Value::Closure(
                    ClosureValue { params, body: c.body.clone(), env: c.env },
                );
                proof {
                    assert(r@->Closure_params =~= self@->Closure_params);
                }
                r
            },
        }
    }
}

/// Deep copy of a list of values.
#[verifier::loop_isolation(false)]
fn clone_values(vs: &Vec<Value>) -> (r: Vec<Value>)
    ensures
        r@.len() == vs@.len(),
        forall|i: int| 0 <= i < vs@.len() ==> r@[i]@ == vs@[i]@,
    decreases vs,
{
    let mut r: Vec<Value> = Vec::new();
    let mut i: usize = 0;
    while i < vs.len()
        invariant
            i <= vs@.len(),
            r@.len() == i,
            forall|j: int| 0 <= j < i ==> r@[j]@ == vs@[j]@,
        decreases vs@.len() - i,
    {
        r.push(vs[i].clone());
        i += 1;
    }
    r
}

/// Deep copy of a list of names.
#[verifier::loop_isolation(false)]
pub fn clone_names(ns: &Vec<Vec<char>>) -> (r: Vec<Vec<char>>)
    ensures
        r@.len() == ns@.len(),
        forall|i: int| 0 <= i < ns@.len() ==> r@[i]@ == ns@[i]@,
{
    let mut r: Vec<Vec<char>> = Vec::new();
    let mut i: usize = 0;
    while i < ns.len()
        invariant
            i <= ns@.len(),
            r@.len() == i,
            forall|j: int| 0 <= j < i ==> r@[j]@ == ns@[j]@,
        decreases ns@.len() - i,
    {
        r.push(crate::copy_vec(&ns[i]));
        i += 1;
    }
    r
}

/// Every number atom in the expression carries a well-formed
/// rational (a positive denominator), as every parsed expression
/// does.
pub open spec fn expr_ok(e: ExprModel) -> bool
    decreases e,
{
    match e {
        ExprModel::Number(r) => r.wf(),
        ExprModel::List(es) => forall|i: int| 0 <= i < es.len() ==> expr_ok(#[trigger] es[i]),
        _ => true,
    }
}

/// What quoting an expression yields: the expression itself, carried
/// over into the value world without evaluation.
pub open spec fn value_of_expr(e: ExprModel) -> ValueModel
    decreases e,
{
    match e {
        ExprModel::Number(r) => ValueModel::Number(r),
        ExprModel::Symbol(s) => ValueModel::Symbol(s),
        ExprModel::Str(s) => ValueModel::Str(s),
        ExprModel::List(es) => ValueModel::List(
            Seq::new(
                es.len(),
                |i: int|
                    if 0 <= i < es.len() {
                        value_of_expr(es[i])
                    } else {
                        ValueModel::Unit
                    },
            ),
        ),
    }
}

/// Convert an expression to the value it quotes to.
#[verifier::loop_isolation(false)]
pub fn quote_value(e: &Expression) -> (r: Value)
    ensures
        r@ == value_of_expr(e@),
    decreases e,
{
    match e {
        Expression::Atom(Atom::Number(n)) => Value::Number(*n),
        Expression::Atom(Atom::Symbol(s)) => Value::Symbol(crate::copy_vec(s)),
        Expression::Atom(Atom::Str(s)) => Value::Str(crate::copy_vec(s)),
        Expression::List(es) => {
            let mut vals: Vec<Value> = Vec::new();
            let mut i: usize = 0;
            while i < es.len()
                invariant
                    i <= es@.len(),
                    vals@.len() == i,
                    forall|j: int| 0 <= j < i ==> vals@[j]@ == value_of_expr(es@[j]@),
                decreases es@.len() - i,
        {
                vals.push(quote_value(&es[i]));
                i += 1;
            }
            let r = Value::List(vals);
            proof {
                let ghost def = Seq::new(
                    es@.len(),
                    |i: int|
                        if 0 <= i < es@.len() {
                            es@[i]@
                        } else {
                            ExprModel::List(Seq::empty())
                        },
                );
                assert((*e)->List_0 == *es);
                assert(e@ is List);
                assert(e@->List_0.len() == es@.len());
                assert(e@->List_0 =~= def);
                let s0 = e@->List_0;
                assert(vals@.len() == es@.len());
                assert forall|j: int| 0 <= j < vals@.len() implies r@->List_0[j]
                    == value_of_expr(e@)->List_0[j] by {
                    assert(s0[j] == es@[j]@);
                    assert(vals@[j]@ == value_of_expr(es@[j]@));
                }
                assert(r@->List_0 =~= value_of_expr(e@)->List_0);
                assert(r@ == value_of_expr(e@));
            }
            r
        },
    }
}

} // verus!
