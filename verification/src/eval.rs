//! The evaluator: walks an expression tree against an environment and
//! produces a value or a structured error.
//!
//! Dispatch is by expression shape.  Number and string atoms evaluate
//! to themselves; a symbol is looked up along the environment chain;
//! the empty list evaluates to itself (the canonical false sentinel);
//! the special forms `quote`, `define`, `if`, `lambda` and `let` are
//! handled structurally; any other list is an application: the head
//! and the arguments are evaluated left to right, and the head's value
//! must be a built-in operator name (`+ - * / =`) or a closure.
//!
//! Truthiness for `if`: the empty list is the one false value; every
//! other value, the number `0` included, takes the consequent branch.
//! `=` yields the number `1` for true and the empty list for false.
//! Closure application consumes one unit of recursion fuel; when the
//! fuel is exhausted evaluation reports a depth error rather than
//! running unboundedly.

use vstd::prelude::*;
use crate::ast::Atom;
use crate::ast::ExprModel;
use crate::ast::Expression;
use crate::ast::expr_model;
use crate::ast::Rational;
use crate::ast::Value;
use crate::ast::ValueModel;
use crate::ast::value_model;
use crate::env::Environment;
use crate::ast::value_of_expr;
use crate::env::BindingModel;
use crate::env::FrameModel;
use crate::env::lookup_env;
use crate::number::add_parts;
use crate::number::div_parts;
use crate::number::fits_i64;
use crate::number::mul_parts;
use crate::number::sub_parts;
use crate::parser::ParseError;
use crate::parser::quote_name;

verus! {

/// Why evaluation failed.
#[derive(Debug, Clone, Copy, PartialEq, Eq, Structural)]
pub enum EvalErrorKind {
    /// The source text did not parse; carries the parser's reason.
    Syntax(ParseError),
    /// A symbol was absent from the whole environment chain.
    UnboundSymbol,
    /// The head of an application was neither an operator name nor a
    /// closure.
    NotCallable,
    /// A closure was applied to the wrong number of arguments, or an
    /// operator to none.
    ArityMismatch,
    /// An arithmetic operand was not a number.
    TypeMismatch,
    /// A division met a zero divisor.
    DivideByZero,
    /// An arithmetic result left the 64-bit range.
    Overflow,
    /// A special form was malformed (wrong arity or shape).
    BadSpecialForm,
    /// The recursion fuel ran out.
    DepthExceeded,
}

/// The evaluator's error value.
#[derive(Debug, Clone, Copy, PartialEq, Eq, Structural)]
pub struct EvalError {
    pub kind: EvalErrorKind,
}

/// The built-in arithmetic operators.
#[derive(Debug, Clone, Copy, PartialEq, Eq, Structural)]
pub enum ArithOp {
    Add,
    Sub,
    Mul,
    Div,
    Eq,
}

/// The name of the `define` form.
pub open spec fn define_name() -> Seq<char> {
    seq!['d', 'e', 'f', 'i', 'n', 'e']
}

/// The name of the `if` form.
pub open spec fn if_name() -> Seq<char> {
    seq!['i', 'f']
}

/// The name of the `lambda` form.
pub open spec fn lambda_name() -> Seq<char> {
    seq!['l', 'a', 'm', 'b', 'd', 'a']
}

/// The name of the `let` form.
pub open spec fn let_name() -> Seq<char> {
    seq!['l', 'e', 't']
}

/// The operator a one-character symbol names, if any.
pub open spec fn op_of_name(name: Seq<char>) -> Option<ArithOp> {
    if name == seq!['+'] {
        Some(ArithOp::Add)
    } else if name == seq!['-'] {
        Some(ArithOp::Sub)
    } else if name == seq!['*'] {
        Some(ArithOp::Mul)
    } else if name == seq!['/'] {
        Some(ArithOp::Div)
    } else if name == seq!['='] {
        Some(ArithOp::Eq)
    } else {
        None
    }
}

/// The one false value: the empty list.
pub open spec fn is_false_value(v: ValueModel) -> bool {
    v == ValueModel::List(Seq::<ValueModel>::empty())
}

/// The value `=` yields for a true comparison.
pub open spec fn true_value() -> ValueModel {
    ValueModel::Number(Rational { num: 1, den: 1 })
}

/// The value `=` yields for a false comparison.
pub open spec fn false_value() -> ValueModel {
    ValueModel::List(Seq::<ValueModel>::empty())
}

/// One fold step of a built-in operator over two rationals, with the
/// overflow and zero-divisor checks the representation forces.
pub open spec fn fold_step(op: ArithOp, a: Rational, b: Rational) -> Result<
    Rational,
    EvalErrorKind,
> {
    let parts = match op {
        ArithOp::Add => add_parts(a, b),
        ArithOp::Sub => sub_parts(a, b),
        ArithOp::Mul => mul_parts(a, b),
        _ => div_parts(a, b),
    };
    if op is Div && b.num == 0 {
        Err(EvalErrorKind::DivideByZero)
    } else if fits_i64(parts.0) && fits_i64(parts.1) {
        Ok(Rational { num: parts.0 as i64, den: parts.1 as i64 })
    } else {
        Err(EvalErrorKind::Overflow)
    }
}

/// Fold the operator over the remaining operands, left to right.
pub open spec fn fold_arith(
    op: ArithOp,
    acc: Rational,
    vals: Seq<ValueModel>,
    i: int,
) -> Result<Rational, EvalErrorKind>
    decreases vals.len() - i,
{
    if 0 <= i < vals.len() {
        if !(vals[i] is Number) {
            Err(EvalErrorKind::TypeMismatch)
        } else {
            match fold_step(op, acc, vals[i]->Number_0) {
                Ok(c) => fold_arith(op, c, vals, i + 1),
                Err(e) => Err(e),
            }
        }
    } else {
        Ok(acc)
    }
}

/// Whether every remaining operand is a number equal to the first.
pub open spec fn eq_check(first: Rational, vals: Seq<ValueModel>, i: int) -> Result<
    bool,
    EvalErrorKind,
>
    decreases vals.len() - i,
{
    if 0 <= i < vals.len() {
        if !(vals[i] is Number) {
            Err(EvalErrorKind::TypeMismatch)
        } else {
            match eq_check(first, vals, i + 1) {
                Ok(b) => Ok(b && first.same_value(vals[i]->Number_0)),
                Err(e) => Err(e),
            }
        }
    } else {
        Ok(true)
    }
}

/// Apply a built-in operator to evaluated operands: every operand must
/// be a number; `+ - * /` fold left to right; `=` compares all
/// operands with the first.
pub open spec fn apply_arith(op: ArithOp, vals: Seq<ValueModel>) -> Result<
    ValueModel,
    EvalErrorKind,
> {
    if vals.len() == 0 {
        Err(EvalErrorKind::ArityMismatch)
    } else if !(vals[0] is Number) {
        Err(EvalErrorKind::TypeMismatch)
    } else {
        match op {
            ArithOp::Eq => match eq_check(vals[0]->Number_0, vals, 1) {
                Ok(b) => Ok(if b {
                    true_value()
                } else {
                    false_value()
                }),
                Err(e) => Err(e),
            },
            _ => match fold_arith(op, vals[0]->Number_0, vals, 1) {
                Ok(c) => Ok(ValueModel::Number(c)),
                Err(e) => Err(e),
            },
        }
    }
}

/// A well-formed value: its numbers carry positive denominators and
/// its closures reference frames inside an arena of `n` frames and
/// carry well-formed bodies.
pub open spec fn value_ok(v: ValueModel, n: int) -> bool
    decreases v,
{
    match v {
        ValueModel::Number(r) => r.wf(),
        ValueModel::List(vs) => forall|i: int|
            0 <= i < vs.len() ==> value_ok(#[trigger] vs[i], n),
        ValueModel::Closure { params, body, env } => 0 <= env < n && crate::ast::expr_ok(body),
        _ => true,
    }
}

/// Every value bound in one frame stays inside an arena of `n` frames.
pub open spec fn frame_values_ok(f: FrameModel, n: int) -> bool {
    forall|j: int| 0 <= j < f.bindings.len() ==> value_ok(#[trigger] f.bindings[j].val, n)
}

/// Well-formed arena whose stored values all reference frames inside
/// it.
pub open spec fn env_ok(frames: Seq<FrameModel>) -> bool {
    &&& crate::env::env_wf(frames)
    &&& forall|i: int|
        0 <= i < frames.len() ==> frame_values_ok(#[trigger] frames[i], frames.len() as int)
}

/// Growing the arena never invalidates a value.
pub proof fn lemma_value_ok_mono(v: ValueModel, n1: int, n2: int)
    requires
        value_ok(v, n1),
        n1 <= n2,
    ensures
        value_ok(v, n2),
    decreases v,
{
    match v {
        ValueModel::List(vs) => {
            assert forall|i: int| 0 <= i < vs.len() implies value_ok(#[trigger] vs[i], n2) by {
                lemma_value_ok_mono(vs[i], n1, n2);
            }
        },
        _ => {},
    }
}

/// Quoting a well-formed expression yields a well-formed value (it
/// holds no closures at all).
pub proof fn lemma_value_of_expr_ok(e: ExprModel, n: int)
    requires
        crate::ast::expr_ok(e),
    ensures
        value_ok(value_of_expr(e), n),
    decreases e,
{
    match e {
        ExprModel::List(es) => {
            assert forall|i: int|
                0 <= i < es.len() implies value_ok(
                #[trigger] value_of_expr(e)->List_0[i],
                n,
            ) by {
                lemma_value_of_expr_ok(es[i], n);
            }
        },
        _ => {},
    }
}

/// A value found in a well-formed arena is valid in it.
pub proof fn lemma_lookup_frame_ok(bindings: Seq<BindingModel>, name: Seq<char>, f: FrameModel, n: int)
    requires
        frame_values_ok(f, n),
        bindings.len() <= f.bindings.len(),
        forall|j: int| 0 <= j < bindings.len() ==> bindings[j] == f.bindings[j],
    ensures
        match crate::env::lookup_frame(bindings, name) {
            Some(v) => value_ok(v, n),
            None => true,
        },
    decreases bindings.len(),
{
    if bindings.len() > 0 {
        if bindings.last().name == name {
            assert(bindings.last() == f.bindings[bindings.len() - 1]);
        } else {
            lemma_lookup_frame_ok(bindings.drop_last(), name, f, n);
        }
    }
}

/// A value found along the chain of a well-formed arena is valid in
/// it.
pub proof fn lemma_lookup_ok(frames: Seq<FrameModel>, e: int, name: Seq<char>)
    requires
        env_ok(frames),
    ensures
        match lookup_env(frames, e, name) {
            Some(v) => value_ok(v, frames.len() as int),
            None => true,
        },
    decreases e,
{
    if 0 <= e < frames.len() {
        lemma_lookup_frame_ok(frames[e].bindings, name, frames[e], frames.len() as int);
        match crate::env::lookup_frame(frames[e].bindings, name) {
            Some(v) => {},
            None => match frames[e].parent {
                Some(p) => {
                    if p < e {
                        lemma_lookup_ok(frames, p as int, name);
                    }
                },
                None => {},
            },
        }
    }
}

/// The bindings of a fresh call frame: parameter names paired with
/// argument values, in order.
pub open spec fn bindings_of(params: Seq<Seq<char>>, argv: Seq<ValueModel>) -> Seq<BindingModel> {
    Seq::new(params.len(), |i: int| BindingModel { name: params[i], val: argv[i] })
}

/// One evaluation step's outcome: the arena afterwards and the value
/// or error.
#[verifier::ext_equal]
pub struct EvalStep {
    pub frames: Seq<FrameModel>,
    pub res: Result<ValueModel, EvalErrorKind>,
}

/// Outcome of evaluating an argument list.
#[verifier::ext_equal]
pub struct ArgsStep {
    pub frames: Seq<FrameModel>,
    pub res: Result<Seq<ValueModel>, EvalErrorKind>,
}

/// Outcome of evaluating a `let` binding list.
#[verifier::ext_equal]
pub struct BindsStep {
    pub frames: Seq<FrameModel>,
    pub res: Result<Seq<BindingModel>, EvalErrorKind>,
}

/// Binding a name in one frame, as the arena sees it.
pub open spec fn define_model(
    frames: Seq<FrameModel>,
    scope: int,
    name: Seq<char>,
    v: ValueModel,
) -> Seq<FrameModel> {
    if 0 <= scope < frames.len() {
        frames.update(
            scope,
            FrameModel {
                bindings: frames[scope].bindings.push(BindingModel { name, val: v }),
                parent: frames[scope].parent,
            },
        )
    } else {
        frames
    }
}

/// A `let` binding list is a list of two-element lists headed by a
/// symbol.
pub open spec fn let_bindings_ok(bs: Seq<ExprModel>) -> bool {
    forall|i: int|
        0 <= i < bs.len() ==> {
            &&& (#[trigger] bs[i]) is List
            &&& bs[i]->List_0.len() == 2
            &&& bs[i]->List_0[0] is Symbol
        }
}

/// A `lambda` parameter list is a list of symbols.
pub open spec fn param_list_ok(ps: Seq<ExprModel>) -> bool {
    forall|i: int| 0 <= i < ps.len() ==> (#[trigger] ps[i]) is Symbol
}

/// The parameter names of a symbol list.
pub open spec fn names_of(ps: Seq<ExprModel>) -> Seq<Seq<char>> {
    Seq::new(ps.len(), |i: int| ps[i]->Symbol_0)
}

/// What evaluating an expression does, as a function of the arena,
/// the scope, the expression and the remaining fuel.
pub open spec fn eval_expr(frames: Seq<FrameModel>, scope: int, e: ExprModel, fuel: nat) -> EvalStep
    decreases fuel, e, 0int, 0int,
{
    match e {
        ExprModel::Number(r) => EvalStep { frames, res: Ok(ValueModel::Number(r)) },
        ExprModel::Str(s) => EvalStep { frames, res: Ok(ValueModel::Str(s)) },
        ExprModel::Symbol(s) => match lookup_env(frames, scope, s) {
            Some(v) => EvalStep { frames, res: Ok(v) },
            None => EvalStep { frames, res: Err(EvalErrorKind::UnboundSymbol) },
        },
        ExprModel::List(items) => {
            if items.len() == 0 {
                EvalStep { frames, res: Ok(ValueModel::List(Seq::empty())) }
            } else if items[0] == ExprModel::Symbol(quote_name()) {
                if items.len() == 2 {
                    EvalStep { frames, res: Ok(value_of_expr(items[1])) }
                } else {
                    EvalStep { frames, res: Err(EvalErrorKind::BadSpecialForm) }
                }
            } else if items[0] == ExprModel::Symbol(define_name()) {
                if items.len() == 3 && items[1] is Symbol {
                    let st = eval_expr(frames, scope, items[2], fuel);
                    match st.res {
                        Ok(v) => EvalStep {
                            frames: define_model(st.frames, scope, items[1]->Symbol_0, v),
                            res: Ok(ValueModel::Unit),
                        },
                        Err(err) => EvalStep { frames: st.frames, res: Err(err) },
                    }
                } else {
                    EvalStep { frames, res: Err(EvalErrorKind::BadSpecialForm) }
                }
            } else if items[0] == ExprModel::Symbol(if_name()) {
                if items.len() == 3 || items.len() == 4 {
                    let st = eval_expr(frames, scope, items[1], fuel);
                    match st.res {
                        Ok(c) => {
                            if !is_false_value(c) {
                                eval_expr(st.frames, scope, items[2], fuel)
                            } else if items.len() == 4 {
                                eval_expr(st.frames, scope, items[3], fuel)
                            } else {
                                EvalStep { frames: st.frames, res: Ok(ValueModel::Unit) }
                            }
                        },
                        Err(err) => EvalStep { frames: st.frames, res: Err(err) },
                    }
                } else {
                    EvalStep { frames, res: Err(EvalErrorKind::BadSpecialForm) }
                }
            } else if items[0] == ExprModel::Symbol(lambda_name()) {
                if items.len() == 3 && items[1] is List && param_list_ok(items[1]->List_0) {
                    EvalStep {
                        frames,
                        res: Ok(
                            ValueModel::Closure {
                                params: names_of(items[1]->List_0),
                                body: items[2],
                                env: scope,
                            },
                        ),
                    }
                } else {
                    EvalStep { frames, res: Err(EvalErrorKind::BadSpecialForm) }
                }
            } else if items[0] == ExprModel::Symbol(let_name()) {
                if items.len() == 3 && items[1] is List && let_bindings_ok(items[1]->List_0) {
                    let bst = eval_binds(frames, scope, items[1]->List_0, 0, Seq::empty(), fuel);
                    match bst.res {
                        Ok(bs) => {
                            let frames2 = bst.frames.push(
                                FrameModel { bindings: bs, parent: Some(scope) },
                            );
                            eval_expr(frames2, bst.frames.len() as int, items[2], fuel)
                        },
                        Err(err) => EvalStep { frames: bst.frames, res: Err(err) },
                    }
                } else {
                    EvalStep { frames, res: Err(EvalErrorKind::BadSpecialForm) }
                }
            } else {
                let hd = eval_expr(frames, scope, items[0], fuel);
                match hd.res {
                    Ok(f) => {
                        let ast = eval_args(hd.frames, scope, items, 1, Seq::empty(), fuel);
                        match ast.res {
                            Ok(argv) => match f {
                                ValueModel::Symbol(nm) => match op_of_name(nm) {
                                    Some(op) => EvalStep {
                                        frames: ast.frames,
                                        res: apply_arith(op, argv),
                                    },
                                    None => EvalStep {
                                        frames: ast.frames,
                                        res: Err(EvalErrorKind::NotCallable),
                                    },
                                },
                                ValueModel::Closure { params, body, env } => {
                                    if params.len() != argv.len() {
                                        EvalStep {
                                            frames: ast.frames,
                                            res: Err(EvalErrorKind::ArityMismatch),
                                        }
                                    } else if fuel == 0 {
                                        EvalStep {
                                            frames: ast.frames,
                                            res: Err(EvalErrorKind::DepthExceeded),
                                        }
                                    } else {
                                        let frames2 = ast.frames.push(
                                            FrameModel {
                                                bindings: bindings_of(params, argv),
                                                parent: Some(env),
                                            },
                                        );
                                        eval_expr(
                                            frames2,
                                            ast.frames.len() as int,
                                            body,
                                            (fuel - 1) as nat,
                                        )
                                    }
                                },
                                _ => EvalStep {
                                    frames: ast.frames,
                                    res: Err(EvalErrorKind::NotCallable),
                                },
                            },
                            Err(err) => EvalStep { frames: ast.frames, res: Err(err) },
                        }
                    },
                    Err(err) => EvalStep { frames: hd.frames, res: Err(err) },
                }
            }
        },
    }
}

/// Evaluate the arguments of an application, left to right, from
/// index `i`.
pub open spec fn eval_args(
    frames: Seq<FrameModel>,
    scope: int,
    items: Seq<ExprModel>,
    i: int,
    acc: Seq<ValueModel>,
    fuel: nat,
) -> ArgsStep
    decreases fuel, items, 1int, items.len() - i,
{
    if 0 <= i < items.len() {
        let st = eval_expr(frames, scope, items[i], fuel);
        match st.res {
            Ok(v) => eval_args(st.frames, scope, items, i + 1, acc.push(v), fuel),
            Err(err) => ArgsStep { frames: st.frames, res: Err(err) },
        }
    } else {
        ArgsStep { frames, res: Ok(acc) }
    }
}

/// Evaluate the binding expressions of a `let`, left to right, from
/// index `i`, pairing each with its name.
pub open spec fn eval_binds(
    frames: Seq<FrameModel>,
    scope: int,
    bs: Seq<ExprModel>,
    i: int,
    acc: Seq<BindingModel>,
    fuel: nat,
) -> BindsStep
    decreases fuel, bs, 1int, bs.len() - i,
{
    if 0 <= i < bs.len() && !(bs[i] is List && bs[i]->List_0.len() == 2) {
        BindsStep { frames, res: Err(EvalErrorKind::BadSpecialForm) }
    } else if 0 <= i < bs.len() {
        let st = eval_expr(frames, scope, bs[i]->List_0[1], fuel);
        match st.res {
            Ok(v) => eval_binds(
                st.frames,
                scope,
                bs,
                i + 1,
                acc.push(BindingModel { name: bs[i]->List_0[0]->Symbol_0, val: v }),
                fuel,
            ),
            Err(err) => BindsStep { frames: st.frames, res: Err(err) },
        }
    } else {
        BindsStep { frames, res: Ok(acc) }
    }
}


/// Law: quoting is evaluation-transparent.  Evaluating the form
/// `(quote X)` in any arena, scope and fuel leaves every frame
/// unchanged and returns exactly the value the expression `X` quotes
/// to, structurally equal to `X` itself.
pub proof fn lemma_quote_round_trip(
    frames: Seq<FrameModel>,
    scope: int,
    x: ExprModel,
    fuel: nat,
)
    ensures
        ({
            let st = eval_expr(
                frames,
                scope,
                ExprModel::List(seq![ExprModel::Symbol(quote_name()), x]),
                fuel,
            );
            &&& st.frames == frames
            &&& st.res == Ok::<ValueModel, EvalErrorKind>(value_of_expr(x))
        }),
{
    let items = seq![ExprModel::Symbol(quote_name()), x];
    assert(items.len() == 2);
    assert(items[0] == ExprModel::Symbol(quote_name()));
    assert(items[1] == x);
}

/// Law: a well-shaped `define` evaluates its right-hand side and, on
/// success, binds the symbol in the *current* frame — the frame gains
/// exactly that one binding, the form's result is the unit value, and
/// the new binding is what lookup in that frame now finds.
pub proof fn lemma_define_binds(
    frames: Seq<FrameModel>,
    scope: int,
    name: Seq<char>,
    rhs: ExprModel,
    fuel: nat,
)
    ensures
        ({
            let form = ExprModel::List(
                seq![
                    ExprModel::Symbol(define_name()),
                    ExprModel::Symbol(name),
                    rhs,
                ],
            );
            let st = eval_expr(frames, scope, form, fuel);
            let inner = eval_expr(frames, scope, rhs, fuel);
            match inner.res {
                Ok(v) => {
                    &&& st.res == Ok::<ValueModel, EvalErrorKind>(ValueModel::Unit)
                    &&& st.frames == define_model(inner.frames, scope, name, v)
                    &&& (0 <= scope < inner.frames.len() ==> {
                        &&& st.frames[scope].bindings == inner.frames[scope].bindings.push(
                            BindingModel { name, val: v },
                        )
                        &&& crate::env::lookup_frame(st.frames[scope].bindings, name)
                            == Some(v)
                    })
                },
                Err(k) => st == (EvalStep { frames: inner.frames, res: Err(k) }),
            }
        }),
{
    let items = seq![ExprModel::Symbol(define_name()), ExprModel::Symbol(name), rhs];
    assert(items.len() == 3);
    assert(items[0] == ExprModel::Symbol(define_name()));
    assert(items[1] == ExprModel::Symbol(name));
    assert(items[2] == rhs);
    assert(define_name() != quote_name());
    let inner = eval_expr(frames, scope, rhs, fuel);
    match inner.res {
        Ok(v) => {
            if 0 <= scope < inner.frames.len() {
                let st = eval_expr(
                    frames,
                    scope,
                    ExprModel::List(items),
                    fuel,
                );
                assert(st.frames[scope].bindings == inner.frames[scope].bindings.push(
                    BindingModel { name, val: v },
                ));
            }
        },
        Err(k) => {},
    }
}

/// The ghost shapes of a sequence of values.
pub open spec fn vals_model(s: Seq<Value>) -> Seq<ValueModel> {
    Seq::new(s.len(), |i: int| value_model(s[i]))
}

/// The ghost shapes of a sequence of names.
pub open spec fn names_model(s: Seq<Vec<char>>) -> Seq<Seq<char>> {
    Seq::new(s.len(), |i: int| s[i]@)
}

/// Numbers among the values carry well-formed rationals.
pub open spec fn nums_wf(vals: Seq<ValueModel>) -> bool {
    forall|i: int|
        0 <= i < vals.len() ==> ((#[trigger] vals[i]) is Number ==> vals[i]->Number_0.wf())
}

/// The special forms, recognized by the symbol heading a list.
#[derive(Debug, Clone, Copy, PartialEq, Eq, Structural)]
pub enum Special {
    Quote,
    Define,
    If,
    Lambda,
    Let,
}

/// Which special form a head symbol names, if any.
pub open spec fn spec_special(name: Seq<char>) -> Option<Special> {
    if name == quote_name() {
        Some(Special::Quote)
    } else if name == define_name() {
        Some(Special::Define)
    } else if name == if_name() {
        Some(Special::If)
    } else if name == lambda_name() {
        Some(Special::Lambda)
    } else if name == let_name() {
        Some(Special::Let)
    } else {
        None
    }
}

/// Recognize a special-form name.
fn special_lookup(s: &Vec<char>) -> (r: Option<Special>)
    ensures
        r == spec_special(s@),
{
    let n = s.len();
    if n == 5 && s[0] == 'q' && s[1] == 'u' && s[2] == 'o' && s[3] == 't' && s[4] == 'e' {
        proof {
            assert(s@ =~= quote_name());
        }
        Some(Special::Quote)
    } else if n == 6 && s[0] == 'd' && s[1] == 'e' && s[2] == 'f' && s[3] == 'i' && s[4] == 'n'
        && s[5] == 'e' {
        proof {
            assert(s@ =~= define_name());
        }
        Some(Special::Define)
    } else if n == 2 && s[0] == 'i' && s[1] == 'f' {
        proof {
            assert(s@ =~= if_name());
        }
        Some(Special::If)
    } else if n == 6 && s[0] == 'l' && s[1] == 'a' && s[2] == 'm' && s[3] == 'b' && s[4] == 'd'
        && s[5] == 'a' {
        proof {
            assert(s@ =~= lambda_name());
        }
        Some(Special::Lambda)
    } else if n == 3 && s[0] == 'l' && s[1] == 'e' && s[2] == 't' {
        proof {
            assert(s@ =~= let_name());
        }
        Some(Special::Let)
    } else {
        None
    }
}

/// Recognize a built-in operator name.
fn op_of_symbol(s: &Vec<char>) -> (r: Option<ArithOp>)
    ensures
        r == op_of_name(s@),
{
    if s.len() == 1 {
        let c = s[0];
        if c == '+' {
            proof {
                assert(s@ =~= seq!['+']);
            }
            Some(ArithOp::Add)
        } else if c == '-' {
            proof {
                assert(s@ =~= seq!['-']);
            }
            Some(ArithOp::Sub)
        } else if c == '*' {
            proof {
                assert(s@ =~= seq!['*']);
            }
            Some(ArithOp::Mul)
        } else if c == '/' {
            proof {
                assert(s@ =~= seq!['/']);
            }
            Some(ArithOp::Div)
        } else if c == '=' {
            proof {
                assert(s@ =~= seq!['=']);
            }
            Some(ArithOp::Eq)
        } else {
            None
        }
    } else {
        None
    }
}

/// Whether a value is the false sentinel (the empty list).
fn false_check(v: &Value) -> (r: bool)
    ensures
        r == is_false_value(v@),
{
    match v {
        Value::List(vs) => {
            let r = vs.len() == 0;
            proof {
                if r {
                    assert(v@->List_0 =~= Seq::<ValueModel>::empty());
                } else {
                    assert(v@->List_0.len() > 0);
                }
            }
            r
        },
        _ => false,
    }
}

/// Apply a built-in operator to a vector of evaluated operands.
#[verifier::loop_isolation(false)]
fn apply_arith_exec(op: ArithOp, vals: &Vec<Value>) -> (r: Result<Value, EvalError>)
    requires
        nums_wf(vals_model(vals@)),
    ensures
        match apply_arith(op, vals_model(vals@)) {
            Ok(v) => r is Ok && value_model(r->Ok_0) == v,
            Err(k) => r is Err && r->Err_0.kind == k,
        },
        r is Ok ==> forall|n: int| value_ok(value_model(r->Ok_0), n),
{
    let ghost m = vals_model(vals@);
    if vals.len() == 0 {
        return Err(EvalError { kind: EvalErrorKind::ArityMismatch });
    }
    let first = match &vals[0] {
        Value::Number(n) => *n,
        _ => {
            proof {
                assert(!(m[0] is Number));
            }
            return Err(EvalError { kind: EvalErrorKind::TypeMismatch });
        },
    };
    proof {
        assert(m[0] is Number && m[0]->Number_0 == first);
        assert(first.wf());
    }
    match op {
        ArithOp::Eq => {
            let mut i: usize = 1;
            let mut all = true;
            while i < vals.len()
                invariant
                    1 <= i <= vals@.len(),
                    eq_check(first, m, 1) == (match eq_check(first, m, i as int) {
                        Ok(b) => Ok::<bool, EvalErrorKind>(b && all),
                        Err(e) => Err::<bool, EvalErrorKind>(e),
                    }),
                decreases vals@.len() - i,
            {
                let cur = match &vals[i] {
                    Value::Number(n) => *n,
                    _ => {
                        proof {
                            assert(!(m[i as int] is Number));
                        }
                        return Err(EvalError { kind: EvalErrorKind::TypeMismatch });
                    },
                };
                proof {
                    assert(m[i as int] is Number && m[i as int]->Number_0 == cur);
                    assert(cur.wf());
                }
                let same = crate::number::rat_same(first, cur);
                all = all && same;
                i += 1;
            }
            if all {
                Ok(Value::Number(Rational { num: 1, den: 1 }))
            } else {
                let r = Value::List(Vec::new());
                proof {
                    assert(value_model(r)->List_0 =~= Seq::<ValueModel>::empty());
                }
                Ok(r)
            }
        },
        _ => {
            let mut acc = first;
            let mut i: usize = 1;
            while i < vals.len()
                invariant
                    1 <= i <= vals@.len(),
                    acc.wf(),
                    fold_arith(op, first, m, 1) == fold_arith(op, acc, m, i as int),
                    !(op is Eq),
                decreases vals@.len() - i,
            {
                let cur = match &vals[i] {
                    Value::Number(n) => *n,
                    _ => {
                        proof {
                            assert(!(m[i as int] is Number));
                        }
                        return Err(EvalError { kind: EvalErrorKind::TypeMismatch });
                    },
                };
                proof {
                    assert(m[i as int] is Number && m[i as int]->Number_0 == cur);
                    assert(cur.wf());
                }
                let stepped = match op {
                    ArithOp::Add => crate::number::rat_add(acc, cur),
                    ArithOp::Sub => crate::number::rat_sub(acc, cur),
                    ArithOp::Mul => crate::number::rat_mul(acc, cur),
                    _ => {
                        if cur.num == 0 {
                            return Err(EvalError { kind: EvalErrorKind::DivideByZero });
                        }
                        crate::number::rat_div(acc, cur)
                    },
                };
                match stepped {
                    Some(c) => {
                        acc = c;
                    },
                    None => {
                        return Err(EvalError { kind: EvalErrorKind::Overflow });
                    },
                }
                i += 1;
            }
            Ok(Value::Number(acc))
        },
    }
}

/// How the arena and result after an executable evaluation relate to
/// one step of the evaluation function.
pub open spec fn exec_matches(
    st: EvalStep,
    frames1: Seq<FrameModel>,
    r: Result<Value, EvalError>,
) -> bool {
    &&& frames1 == st.frames
    &&& match r {
        Ok(v) => st.res == Ok::<ValueModel, EvalErrorKind>(value_model(v)),
        Err(err) => st.res == Err::<ValueModel, EvalErrorKind>(err.kind),
    }
}

/// Open a frame for a call or a `let` body: the names bound to the
/// values, in order, under the given parent.
#[verifier::loop_isolation(false)]
fn push_bound_frame(
    env: &mut Environment,
    parent: usize,
    names: &Vec<Vec<char>>,
    vals: &Vec<Value>,
) -> (idx: usize)
    requires
        env_ok(old(env)@),
        parent < old(env)@.len(),
        names@.len() == vals@.len(),
        forall|i: int|
            0 <= i < vals@.len() ==> value_ok(
                value_model(#[trigger] vals@[i]),
                old(env)@.len() as int,
            ),
    ensures
        idx == old(env)@.len(),
        final(env)@ == old(env)@.push(
            FrameModel {
                bindings: bindings_of(names_model(names@), vals_model(vals@)),
                parent: Some(parent as int),
            },
        ),
        env_ok(final(env)@),
        final(env)@.len() == old(env)@.len() + 1,
{
    let ghost target = bindings_of(names_model(names@), vals_model(vals@));
    let idx = env.push_frame(parent);
    proof {
        assert(target.take(0) =~= Seq::<BindingModel>::empty());
        assert(env@ =~= old(env)@.push(
            FrameModel { bindings: target.take(0), parent: Some(parent as int) },
        ));
        assert forall|k: int| 0 <= k < env@.len() implies frame_values_ok(
            #[trigger] env@[k],
            env@.len() as int,
        ) by {
            if k < old(env)@.len() {
                assert(frame_values_ok(old(env)@[k], old(env)@.len() as int));
                assert forall|j: int| 0 <= j < env@[k].bindings.len() implies value_ok(
                    #[trigger] env@[k].bindings[j].val,
                    env@.len() as int,
                ) by {
                    lemma_value_ok_mono(
                        env@[k].bindings[j].val,
                        old(env)@.len() as int,
                        env@.len() as int,
                    );
                }
            }
        }
    }
    let mut i: usize = 0;
    while i < names.len()
        invariant
            i <= names@.len(),
            names@.len() == vals@.len(),
            idx == old(env)@.len(),
            env_ok(env@),
            env@ =~= old(env)@.push(
                FrameModel { bindings: target.take(i as int), parent: Some(parent as int) },
            ),
            forall|k: int|
                0 <= k < vals@.len() ==> value_ok(
                    value_model(#[trigger] vals@[k]),
                    old(env)@.len() as int,
                ),
        decreases names@.len() - i,
    {
        let name = crate::copy_vec(&names[i]);
        let val = vals[i].clone();
        let ghost before = env@;
        env.define(idx, name, val);
        proof {
            assert(before[idx as int].bindings == target.take(i as int));
            assert(env@[idx as int].bindings == target.take(i as int).push(
                BindingModel { name: names@[i as int]@, val: value_model(vals@[i as int]) },
            ));
            assert(names_model(names@)[i as int] == names@[i as int]@);
            assert(vals_model(vals@)[i as int] == value_model(vals@[i as int]));
            assert(target[i as int] == (BindingModel {
                name: names_model(names@)[i as int],
                val: vals_model(vals@)[i as int],
            }));
            assert(env@[idx as int].bindings =~= target.take(i + 1 as int));
            assert(env@ =~= old(env)@.push(
                FrameModel { bindings: target.take(i + 1 as int), parent: Some(parent as int) },
            ));
            assert forall|k: int| 0 <= k < env@.len() implies frame_values_ok(
                #[trigger] env@[k],
                env@.len() as int,
            ) by {
                assert forall|j: int| 0 <= j < env@[k].bindings.len() implies value_ok(
                    #[trigger] env@[k].bindings[j].val,
                    env@.len() as int,
                ) by {
                    if k == idx as int && j == env@[k].bindings.len() - 1 {
                        lemma_value_ok_mono(
                            value_model(vals@[i as int]),
                            old(env)@.len() as int,
                            env@.len() as int,
                        );
                    }
                }
            }
        }
        i += 1;
    }
    proof {
        assert(target.take(names@.len() as int) =~= target);
        assert(env@ =~= old(env)@.push(
            FrameModel { bindings: target, parent: Some(parent as int) },
        ));
    }
    idx
}


/// Evaluate an expression in the given scope, with `fuel` bounding
/// the depth of closure applications.  The result and the new state
/// of the arena are exactly those of [`eval_expr`].
#[verifier::loop_isolation(false)]
#[verifier::rlimit(100)]
pub fn eval_in(env: &mut Environment, scope: usize, e: &Expression, fuel: u64) -> (r: Result<
    Value,
    EvalError,
>)
    requires
        env_ok(old(env)@),
        scope < old(env)@.len(),
        crate::ast::expr_ok(expr_model(*e)),
    ensures
        env_ok(final(env)@),
        old(env)@.len() <= final(env)@.len(),
        exec_matches(
            eval_expr(old(env)@, scope as int, expr_model(*e), fuel as nat),
            final(env)@,
            r,
        ),
        r is Ok ==> value_ok(value_model(r->Ok_0), final(env)@.len() as int),
    decreases fuel, *e, 0int, 0int,
{
    let ghost em = expr_model(*e);
    match e {
        Expression::Atom(Atom::Number(n)) => Ok(Value::Number(*n)),
        Expression::Atom(Atom::Str(s)) => Ok(Value::Str(crate::copy_vec(s))),
        Expression::Atom(Atom::Symbol(s)) => {
            proof {
                lemma_lookup_ok(env@, scope as int, s@);
            }
            match env.lookup(scope, s) {
                Some(v) => Ok(v),
                None => Err(EvalError { kind: EvalErrorKind::UnboundSymbol }),
            }
        },
        Expression::List(items) => {
            let ghost im = em->List_0;
            proof {
                assert(im =~= crate::parser::exprs_model(items@));
                assert forall|k: int| 0 <= k < im.len() implies crate::ast::expr_ok(
                    #[trigger] im[k],
                ) by {
                    assert(crate::ast::expr_ok(em));
                }
                assert forall|k: int| 0 <= k < im.len() implies #[trigger] im[k] == expr_model(
                    items@[k],
                ) by {
                    assert(crate::parser::exprs_model(items@)[k] == expr_model(items@[k]));
                }
            }
            if items.len() == 0 {
                let r = Value::List(Vec::new());
                proof {
                    assert(value_model(r)->List_0 =~= Seq::<ValueModel>::empty());
                }
                Ok(r)
            } else {
                let special: Option<Special> = match &items[0] {
                    Expression::Atom(Atom::Symbol(s)) => {
                        proof {
                            assert(im[0] == ExprModel::Symbol(s@));
                        }
                        special_lookup(s)
                    },
                    _ => {
                        proof {
                            assert(!(im[0] is Symbol));
                        }
                        None
                    },
                };
                match special {
                    Some(Special::Quote) => {
                        if items.len() == 2 {
                            let v = crate::ast::quote_value(&items[1]);
                            proof {
                                lemma_value_of_expr_ok(im[1], env@.len() as int);
                            }
                            Ok(v)
                        } else {
                            Err(EvalError { kind: EvalErrorKind::BadSpecialForm })
                        }
                    },
                    Some(Special::Define) => {
                        if items.len() == 3 {
                            match &items[0 + 1] {
                                Expression::Atom(Atom::Symbol(nm)) => {
                                    proof {
                                        assert(im[1] == ExprModel::Symbol(nm@));
                                    }
                                    match eval_in(env, scope, &items[2], fuel) {
                                        Ok(v) => {
                                            let ghost mid = env@;
                                            let name = crate::copy_vec(nm);
                                            env.define(scope, name, v);
                                            proof {
                                                assert(env@ =~~= define_model(
                                                    mid,
                                                    scope as int,
                                                    nm@,
                                                    value_model(v),
                                                ));
                                                assert forall|k: int|
                                                    0 <= k < env@.len() implies frame_values_ok(
                                                    #[trigger] env@[k],
                                                    env@.len() as int,
                                                ) by {
                                                    assert(frame_values_ok(
                                                        mid[k],
                                                        mid.len() as int,
                                                    ));
                                                    assert forall|j: int|
                                                        0 <= j
                                                            < env@[k].bindings.len() implies value_ok(
                                                        #[trigger] env@[k].bindings[j].val,
                                                        env@.len() as int,
                                                    ) by {
                                                        let last = env@[k].bindings.len() - 1;
                                                        if !(k == scope as int && j == last) {
                                                            assert(env@[k].bindings[j]
                                                                == mid[k].bindings[j]);
                                                        }
                                                    }
                                                }
                                            }
                                            Ok(Value::Unit)
                                        },
                                        Err(err) => Err(err),
                                    }
                                },
                                _ => {
                                    proof {
                                        assert(!(im[1] is Symbol));
                                    }
                                    Err(EvalError { kind: EvalErrorKind::BadSpecialForm })
                                },
                            }
                        } else {
                            Err(EvalError { kind: EvalErrorKind::BadSpecialForm })
                        }
                    },
                    Some(Special::If) => {
                        if items.len() == 3 || items.len() == 4 {
                            match eval_in(env, scope, &items[1], fuel) {
                                Ok(c) => {
                                    if !false_check(&c) {
                                        eval_in(env, scope, &items[2], fuel)
                                    } else if items.len() == 4 {
                                        eval_in(env, scope, &items[3], fuel)
                                    } else {
                                        Ok(Value::Unit)
                                    }
                                },
                                Err(err) => Err(err),
                            }
                        } else {
                            Err(EvalError { kind: EvalErrorKind::BadSpecialForm })
                        }
                    },
                    Some(Special::Lambda) => {
                        if items.len() == 3 {
                            match &items[0 + 1] {
                                Expression::List(ps) => {
                                    let ghost pm = im[1]->List_0;
                                    proof {
                                        assert(im[1] == expr_model(items@[1]));
                                        assert(pm =~= crate::parser::exprs_model(ps@));
                                    }
                                    let mut params: Vec<Vec<char>> = Vec::new();
                                    let mut i: usize = 0;
                                    let n = ps.len();
                                    while i < n
                                        invariant
                                            i <= n,
                                            n == ps@.len(),
                                            pm =~= crate::parser::exprs_model(ps@),
                                            params@.len() == i,
                                            forall|j: int|
                                                0 <= j < i ==> (#[trigger] pm[j]) is Symbol,
                                            forall|j: int|
                                                0 <= j < i ==> params@[j]@ == (
                                                #[trigger] pm[j])->Symbol_0,
                                        decreases n - i,
                                    {
                                        match &ps[i] {
                                            Expression::Atom(Atom::Symbol(s)) => {
                                                proof {
                                                    assert(pm[i as int] == ExprModel::Symbol(
                                                        s@,
                                                    ));
                                                }
                                                params.push(crate::copy_vec(s));
                                            },
                                            _ => {
                                                proof {
                                                    assert(!(pm[i as int] is Symbol));
                                                    assert(!param_list_ok(pm));
                                                }
                                                return Err(
                                                    EvalError {
                                                        kind: EvalErrorKind::BadSpecialForm,
                                                    },
                                                );
                                            },
                                        }
                                        i += 1;
                                    }
                                    proof {
                                        assert(param_list_ok(pm));
                                    }
                                    let body = items[2].clone();
                                    let r = Value::Closure(
                                        crate::ast::ClosureValue { params, body, env: scope },
                                    );
                                    proof {
                                        assert(value_model(r)->Closure_params =~= names_of(pm));
                                        assert(value_model(r) == (ValueModel::Closure {
                                            params: names_of(pm),
                                            body: im[2],
                                            env: scope as int,
                                        }));
                                    }
                                    Ok(r)
                                },
                                _ => {
                                    proof {
                                        assert(!(im[1] is List));
                                    }
                                    Err(EvalError { kind: EvalErrorKind::BadSpecialForm })
                                },
                            }
                        } else {
                            Err(EvalError { kind: EvalErrorKind::BadSpecialForm })
                        }
                    },
                    Some(Special::Let) => {
                        if items.len() == 3 {
                            match &items[0 + 1] {
                                Expression::List(bs) => {
                                    let ghost bm = im[1]->List_0;
                                    proof {
                                        assert(im[1] == expr_model(items@[1]));
                                        assert(bm =~= crate::parser::exprs_model(bs@));
                                        assert(crate::ast::expr_ok(im[1]));
                                    }
                                    let mut i: usize = 0;
                                    let n = bs.len();
                                    while i < n
                                        invariant
                                            i <= n,
                                            n == bs@.len(),
                                            bm =~= crate::parser::exprs_model(bs@),
                                            forall|j: int|
                                                0 <= j < i ==> {
                                                    &&& (#[trigger] bm[j]) is List
                                                    &&& bm[j]->List_0.len() == 2
                                                    &&& bm[j]->List_0[0] is Symbol
                                                },
                                        decreases n - i,
                                    {
                                        let shape_ok: bool = match &bs[i] {
                                            Expression::List(pair) => {
                                                if pair.len() == 2 {
                                                    match &pair[0] {
                                                        Expression::Atom(Atom::Symbol(_)) => true,
                                                        _ => false,
                                                    }
                                                } else {
                                                    false
                                                }
                                            },
                                            _ => false,
                                        };
                                        proof {
                                            assert(bm[i as int] == expr_model(bs@[i as int]));
                                            if bs@[i as int] is List {
                                                assert(bm[i as int]->List_0
                                                    =~= crate::parser::exprs_model(
                                                    bs@[i as int]->List_0@,
                                                ));
                                            }
                                        }
                                        if !shape_ok {
                                            proof {
                                                assert(!let_bindings_ok(bm));
                                            }
                                            return Err(
                                                EvalError { kind: EvalErrorKind::BadSpecialForm },
                                            );
                                        }
                                        i += 1;
                                    }
                                    proof {
                                        assert(let_bindings_ok(bm));
                                    }
                                    proof {
                                        assert forall|k: int|
                                            0 <= k < bs@.len() implies crate::ast::expr_ok(
                                            expr_model(#[trigger] bs@[k]),
                                        ) by {
                                            assert(bm[k] == expr_model(bs@[k]));
                                            assert(crate::ast::expr_ok(bm[k]));
                                        }
                                    }
                                    let empty_names: Vec<Vec<char>> = Vec::new();
                                    let empty_vals: Vec<Value> = Vec::new();
                                    proof {
                                        assert(bindings_of(
                                            names_model(empty_names@),
                                            vals_model(empty_vals@),
                                        ) =~= Seq::<BindingModel>::empty());
                                    }
                                    match eval_binds_exec(
                                        env,
                                        scope,
                                        bs,
                                        0,
                                        empty_names,
                                        empty_vals,
                                        fuel,
                                    ) {
                                        Ok((ns, vs)) => {
                                            let idx = push_bound_frame(env, scope, &ns, &vs);
                                            eval_in(env, idx, &items[2], fuel)
                                        },
                                        Err(err) => Err(err),
                                    }
                                },
                                _ => {
                                    proof {
                                        assert(!(im[1] is List));
                                    }
                                    Err(EvalError { kind: EvalErrorKind::BadSpecialForm })
                                },
                            }
                        } else {
                            Err(EvalError { kind: EvalErrorKind::BadSpecialForm })
                        }
                    },
                    None => {
                        match eval_in(env, scope, &items[0], fuel) {
                            Ok(f) => {
                                let ghost head_frames = env@;
                                let empty_vals: Vec<Value> = Vec::new();
                                proof {
                                    assert(vals_model(empty_vals@) =~= Seq::<
                                        ValueModel,
                                    >::empty());
                                    assert forall|k: int|
                                        1 <= k < items@.len() implies crate::ast::expr_ok(
                                        expr_model(#[trigger] items@[k]),
                                    ) by {
                                        assert(im[k] == expr_model(items@[k]));
                                        assert(crate::ast::expr_ok(im[k]));
                                    }
                                }
                                match eval_args_exec(env, scope, items, 1, empty_vals, fuel) {
                                    Ok(argv) => {
                                        match f {
                                            Value::Symbol(s) => {
                                                match op_of_symbol(&s) {
                                                    Some(op) => {
                                                        proof {
                                                            assert(nums_wf(vals_model(argv@)));
                                                        }
                                                        match apply_arith_exec(op, &argv) {
                                                            Ok(v) => Ok(v),
                                                            Err(err) => Err(err),
                                                        }
                                                    },
                                                    None => Err(
                                                        EvalError {
                                                            kind: EvalErrorKind::NotCallable,
                                                        },
                                                    ),
                                                }
                                            },
                                            Value::Closure(c) => {
                                                if c.params.len() != argv.len() {
                                                    Err(
                                                        EvalError {
                                                            kind: EvalErrorKind::ArityMismatch,
                                                        },
                                                    )
                                                } else if fuel == 0 {
                                                    Err(
                                                        EvalError {
                                                            kind: EvalErrorKind::DepthExceeded,
                                                        },
                                                    )
                                                } else {
                                                    proof {
                                                        assert(value_ok(
                                                            value_model(f),
                                                            head_frames.len() as int,
                                                        ));
                                                        assert(c.env < env@.len());
                                                        assert(names_model(c.params@)
                                                            =~= value_model(f)->Closure_params);
                                                    }
                                                    let idx = push_bound_frame(
                                                        env,
                                                        c.env,
                                                        &c.params,
                                                        &argv,
                                                    );
                                                    eval_in(env, idx, &c.body, fuel - 1)
                                                }
                                            },
                                            _ => Err(
                                                EvalError { kind: EvalErrorKind::NotCallable },
                                            ),
                                        }
                                    },
                                    Err(err) => Err(err),
                                }
                            },
                            Err(err) => Err(err),
                        }
                    },
                }
            }
        },
    }
}

/// Evaluate the arguments of an application from index `from`,
/// left to right, extending `acc`.
fn eval_args_exec(
    env: &mut Environment,
    scope: usize,
    items: &Vec<Expression>,
    from: usize,
    acc: Vec<Value>,
    fuel: u64,
) -> (r: Result<Vec<Value>, EvalError>)
    requires
        env_ok(old(env)@),
        scope < old(env)@.len(),
        forall|k: int|
            from <= k < items@.len() ==> crate::ast::expr_ok(expr_model(#[trigger] items@[k])),
        forall|k: int|
            0 <= k < acc@.len() ==> value_ok(
                value_model(#[trigger] acc@[k]),
                old(env)@.len() as int,
            ),
    ensures
        env_ok(final(env)@),
        old(env)@.len() <= final(env)@.len(),
        ({
            let ast = eval_args(
                old(env)@,
                scope as int,
                crate::parser::exprs_model(items@),
                from as int,
                vals_model(acc@),
                fuel as nat,
            );
            &&& final(env)@ == ast.frames
            &&& match r {
                Ok(vs) => ast.res == Ok::<Seq<ValueModel>, EvalErrorKind>(vals_model(vs@)),
                Err(err) => ast.res == Err::<Seq<ValueModel>, EvalErrorKind>(err.kind),
            }
        }),
        r is Ok ==> forall|k: int|
            0 <= k < r->Ok_0@.len() ==> value_ok(
                value_model(#[trigger] r->Ok_0@[k]),
                final(env)@.len() as int,
            ),
    decreases fuel, *items, 1int, items@.len() - from,
{
    let ghost m = crate::parser::exprs_model(items@);
    if from < items.len() {
        proof {
            assert(m[from as int] == expr_model(items@[from as int]));
        }
        match eval_in(env, scope, &items[from], fuel) {
            Ok(v) => {
                let ghost mid = env@;
                let mut acc2 = acc;
                acc2.push(v);
                proof {
                    assert(vals_model(acc2@) =~= vals_model(acc@).push(value_model(v)));
                    assert forall|k: int| 0 <= k < acc2@.len() implies value_ok(
                        value_model(#[trigger] acc2@[k]),
                        env@.len() as int,
                    ) by {
                        if k < acc@.len() {
                            lemma_value_ok_mono(
                                value_model(acc@[k]),
                                old(env)@.len() as int,
                                env@.len() as int,
                            );
                        }
                    }
                }
                eval_args_exec(env, scope, items, from + 1, acc2, fuel)
            },
            Err(err) => Err(err),
        }
    } else {
        Ok(acc)
    }
}

/// Evaluate the binding expressions of a `let` from index `from`,
/// left to right, extending the collected names and values.
fn eval_binds_exec(
    env: &mut Environment,
    scope: usize,
    bs: &Vec<Expression>,
    from: usize,
    names: Vec<Vec<char>>,
    vals: Vec<Value>,
    fuel: u64,
) -> (r: Result<(Vec<Vec<char>>, Vec<Value>), EvalError>)
    requires
        env_ok(old(env)@),
        scope < old(env)@.len(),
        names@.len() == vals@.len(),
        let_bindings_ok(crate::parser::exprs_model(bs@)),
        forall|k: int|
            0 <= k < bs@.len() ==> crate::ast::expr_ok(expr_model(#[trigger] bs@[k])),
        forall|k: int|
            0 <= k < vals@.len() ==> value_ok(
                value_model(#[trigger] vals@[k]),
                old(env)@.len() as int,
            ),
    ensures
        env_ok(final(env)@),
        old(env)@.len() <= final(env)@.len(),
        ({
            let bst = eval_binds(
                old(env)@,
                scope as int,
                crate::parser::exprs_model(bs@),
                from as int,
                bindings_of(names_model(names@), vals_model(vals@)),
                fuel as nat,
            );
            &&& final(env)@ == bst.frames
            &&& match r {
                Ok(nv) => {
                    &&& bst.res == Ok::<Seq<BindingModel>, EvalErrorKind>(
                        bindings_of(names_model(nv.0@), vals_model(nv.1@)),
                    )
                    &&& nv.0@.len() == nv.1@.len()
                    &&& forall|k: int|
                        0 <= k < nv.1@.len() ==> value_ok(
                            value_model(#[trigger] nv.1@[k]),
                            final(env)@.len() as int,
                        )
                },
                Err(err) => bst.res == Err::<Seq<BindingModel>, EvalErrorKind>(err.kind),
            }
        }),
    decreases fuel, *bs, 1int, bs@.len() - from,
{
    let ghost m = crate::parser::exprs_model(bs@);
    if from < bs.len() {
        proof {
            assert(m[from as int] == expr_model(bs@[from as int]));
            assert(m[from as int] is List && m[from as int]->List_0.len() == 2
                && m[from as int]->List_0[0] is Symbol);
        }
        match &bs[from] {
            Expression::List(pair) => {
                let ghost pm = m[from as int]->List_0;
                proof {
                    assert(pm =~= crate::parser::exprs_model(pair@));
                    assert(pm[1] == expr_model(pair@[1]));
                    assert(crate::ast::expr_ok(m[from as int]));
                    assert(crate::ast::expr_ok(pm[1]));
                }
                match &pair[0] {
                    Expression::Atom(Atom::Symbol(nm)) => {
                        proof {
                            assert(pm[0] == ExprModel::Symbol(nm@));
                        }
                        match eval_in(env, scope, &pair[1], fuel) {
                            Ok(v) => {
                                let mut names2 = names;
                                let mut vals2 = vals;
                                names2.push(crate::copy_vec(nm));
                                vals2.push(v);
                                proof {
                                    assert(bindings_of(
                                        names_model(names2@),
                                        vals_model(vals2@),
                                    ) =~= bindings_of(
                                        names_model(names@),
                                        vals_model(vals@),
                                    ).push(
                                        BindingModel {
                                            name: pm[0]->Symbol_0,
                                            val: value_model(vals2@[vals2@.len() - 1]),
                                        },
                                    ));
                                    assert forall|k: int| 0 <= k < vals2@.len() implies value_ok(
                                        value_model(#[trigger] vals2@[k]),
                                        env@.len() as int,
                                    ) by {
                                        if k < vals@.len() {
                                            lemma_value_ok_mono(
                                                value_model(vals@[k]),
                                                old(env)@.len() as int,
                                                env@.len() as int,
                                            );
                                        }
                                    }
                                }
                                eval_binds_exec(env, scope, bs, from + 1, names2, vals2, fuel)
                            },
                            Err(err) => Err(err),
                        }
                    },
                    _ => {
                        proof {
                            assert(false);
                        }
                        Err(EvalError { kind: EvalErrorKind::BadSpecialForm })
                    },
                }
            },
            _ => {
                proof {
                    assert(false);
                }
                Err(EvalError { kind: EvalErrorKind::BadSpecialForm })
            },
        }
    } else {
        Ok((names, vals))
    }
}

} // verus!
