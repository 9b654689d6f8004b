//! The top-level interpreter: source text in, rendered result out.
//!
//! `BasicInterpreter` owns one global environment for its session.
//! Each call to `eval` scans and parses every top-level form of the
//! given text and evaluates the forms in order against that same
//! environment, so `define`s persist across calls; the rendered value
//! of the last form is the output (`ok` when there was none, as for a
//! sole `define`).  The first scan, parse or evaluation error stops
//! the run and is reported.

use vstd::prelude::*;
use crate::ast::Rational;
use crate::ast::Value;
use crate::ast::ValueModel;
use crate::ast::value_model;
use crate::env::Environment;
use crate::env::FrameModel;
use crate::env::initial_env;
use crate::eval::EvalError;
use crate::eval::EvalErrorKind;
use crate::eval::env_ok;
use crate::eval::eval_expr;
use crate::eval::eval_in;
use crate::eval::frame_values_ok;
use crate::eval::value_ok;
use crate::parser::ParseOutcome;
use crate::parser::parse_form;
use crate::scanner::StringScanner;

verus! {

/// How deep closure applications may nest before evaluation reports
/// a depth error.
pub const EVAL_FUEL: u64 = 1000000;

/// The decimal digit characters.
pub open spec fn digit_char(d: int) -> char {
    if d == 0 {
        '0'
    } else if d == 1 {
        '1'
    } else if d == 2 {
        '2'
    } else if d == 3 {
        '3'
    } else if d == 4 {
        '4'
    } else if d == 5 {
        '5'
    } else if d == 6 {
        '6'
    } else if d == 7 {
        '7'
    } else if d == 8 {
        '8'
    } else {
        '9'
    }
}

/// The decimal digits of a non-negative integer.
pub open spec fn dec_chars(n: int) -> Seq<char>
    decreases n,
{
    if n < 10 {
        seq![digit_char(n)]
    } else {
        dec_chars(n / 10).push(digit_char(n % 10))
    }
}

/// The decimal rendering of an integer, with a leading minus sign
/// when negative.
pub open spec fn int_chars(n: int) -> Seq<char> {
    if n < 0 {
        seq!['-'] + dec_chars(-n)
    } else {
        dec_chars(n)
    }
}

/// The textual form of a rational: the numerator alone when the
/// denominator is one, else `numerator/denominator`.
pub open spec fn rational_chars(r: Rational) -> Seq<char> {
    if r.den == 1 {
        int_chars(r.num as int)
    } else {
        int_chars(r.num as int) + seq!['/'] + int_chars(r.den as int)
    }
}

/// The textual form of a value: numbers and strings and symbols
/// directly, `ok` for the unit value, lists in parentheses with
/// spaces between the elements, and a fixed marker for closures.
pub open spec fn render_model(v: ValueModel) -> Seq<char>
    decreases v, 1int,
{
    match v {
        ValueModel::Number(r) => rational_chars(r),
        ValueModel::Str(s) => s,
        ValueModel::Symbol(s) => s,
        ValueModel::Unit => seq!['o', 'k'],
        ValueModel::List(vs) => seq!['('] + render_items(vs, 0) + seq![')'],
        ValueModel::Closure { .. } => seq!['<', 'l', 'a', 'm', 'b', 'd', 'a', '>'],
    }
}

/// The rendered elements of a list value from index `i`, each but the
/// first preceded by a space.
pub open spec fn render_items(vs: Seq<ValueModel>, i: int) -> Seq<char>
    decreases vs, 0int, vs.len() - i,
{
    if 0 <= i < vs.len() {
        let head = render_model(vs[i]);
        let rest = render_items(vs, i + 1);
        if i == 0 {
            head + rest
        } else {
            seq![' '] + head + rest
        }
    } else {
        Seq::empty()
    }
}

/// Render the decimal digits of a non-negative number.
fn dec_chars_exec(n: u64) -> (r: Vec<char>)
    ensures
        r@ == dec_chars(n as int),
    decreases n,
{
    let d = n % 10;
    let c: char = if d == 0 {
        '0'
    } else if d == 1 {
        '1'
    } else if d == 2 {
        '2'
    } else if d == 3 {
        '3'
    } else if d == 4 {
        '4'
    } else if d == 5 {
        '5'
    } else if d == 6 {
        '6'
    } else if d == 7 {
        '7'
    } else if d == 8 {
        '8'
    } else {
        '9'
    };
    if n < 10 {
        let mut r: Vec<char> = Vec::new();
        r.push(c);
        proof {
            assert(r@ =~= seq![digit_char(n as int)]);
        }
        r
    } else {
        let mut r = dec_chars_exec(n / 10);
        r.push(c);
        r
    }
}

/// Render an integer, minus sign included.
fn int_chars_exec(n: i64) -> (r: Vec<char>)
    ensures
        r@ == int_chars(n as int),
{
    if n < 0 {
        let mag = (-(n as i128)) as u64;
        let mut r: Vec<char> = Vec::new();
        r.push('-');
        let ds = dec_chars_exec(mag);
        let mut i: usize = 0;
        while i < ds.len()
            invariant
                i <= ds@.len(),
                r@ == seq!['-'] + ds@.subrange(0, i as int),
            decreases ds@.len() - i,
        {
            r.push(ds[i]);
            proof {
                assert(r@ =~= seq!['-'] + ds@.subrange(0, i + 1 as int));
            }
            i += 1;
        }
        proof {
            assert(ds@.subrange(0, ds@.len() as int) =~= ds@);
        }
        r
    } else {
        dec_chars_exec(n as u64)
    }
}

/// Append one vector of characters to another.
fn append_chars(out: &mut Vec<char>, piece: &Vec<char>)
    ensures
        final(out)@ == old(out)@ + piece@,
{
    let mut i: usize = 0;
    while i < piece.len()
        invariant
            i <= piece@.len(),
            out@ == old(out)@ + piece@.subrange(0, i as int),
        decreases piece@.len() - i,
    {
        out.push(piece[i]);
        proof {
            assert(out@ =~= old(out)@ + piece@.subrange(0, i + 1 as int));
        }
        i += 1;
    }
    proof {
        assert(piece@.subrange(0, piece@.len() as int) =~= piece@);
        assert(out@ =~= old(out)@ + piece@);
    }
}

/// Render a value as text.
#[verifier::loop_isolation(false)]
pub fn render_value(v: &Value) -> (r: Vec<char>)
    ensures
        r@ == render_model(v@),
    decreases v, 1int,
{
    match v {
        Value::Number(n) => {
            if n.den == 1 {
                int_chars_exec(n.num)
            } else {
                let mut r = int_chars_exec(n.num);
                r.push('/');
                let den = int_chars_exec(n.den);
                proof {
                    assert(r@ =~= int_chars(n.num as int) + seq!['/']);
                }
                append_chars(&mut r, &den);
                r
            }
        },
        Value::Str(s) => crate::copy_vec(s),
        Value::Symbol(s) => crate::copy_vec(s),
        Value::Unit => {
            let mut r: Vec<char> = Vec::new();
            r.push('o');
            r.push('k');
            proof {
                assert(r@ =~= seq!['o', 'k']);
            }
            r
        },
        Value::List(vs) => {
            let mut r: Vec<char> = Vec::new();
            r.push('(');
            proof {
                assert(r@ =~= seq!['(']);
                assert(v@->List_0.len() == vs@.len());
            }
            let mut i: usize = 0;
            while i < vs.len()
                invariant
                    i <= vs@.len(),
                    v@ == value_model(*v),
                    v@ is List,
                    v@->List_0.len() == vs@.len(),
                    forall|k: int| 0 <= k < vs@.len() ==> v@->List_0[k] == value_model(
                        #[trigger] vs@[k],
                    ),
                    r@ + render_items(v@->List_0, i as int) == seq!['('] + render_items(
                        v@->List_0,
                        0,
                    ),
                decreases vs@.len() - i,
            {
                proof {
                    assert(v@->List_0[i as int] == value_model(vs@[i as int]));
                }
                let piece = render_value(&vs[i]);
                if i > 0 {
                    r.push(' ');
                }
                append_chars(&mut r, &piece);
                proof {
                    lemma_render_items_prefix(v@->List_0, i as int);
                    assert(r@ + render_items(v@->List_0, i + 1 as int) =~= seq!['(']
                        + render_items(v@->List_0, 0));
                }
                i += 1;
            }
            r.push(')');
            proof {
                assert(render_items(v@->List_0, vs@.len() as int) =~= Seq::<char>::empty());
                assert(r@ =~= render_model(v@));
            }
            r
        },
        Value::Closure(_) => {
            let mut r: Vec<char> = Vec::new();
            r.push('<');
            r.push('l');
            r.push('a');
            r.push('m');
            r.push('b');
            r.push('d');
            r.push('a');
            r.push('>');
            proof {
                assert(r@ =~= seq!['<', 'l', 'a', 'm', 'b', 'd', 'a', '>']);
            }
            r
        },
    }
}

/// The rendering of the items from `i` splits off the rendering of
/// the item at `i`.
proof fn lemma_render_items_prefix(vs: Seq<ValueModel>, i: int)
    requires
        0 <= i < vs.len(),
    ensures
        render_items(vs, i) == (if i == 0 {
            render_model(vs[i]) + render_items(vs, i + 1)
        } else {
            seq![' '] + render_model(vs[i]) + render_items(vs, i + 1)
        }),
{
}

/// What a whole run does: parse each top-level form and evaluate it
/// in the global frame, keeping the last value; stop at the first
/// error; an empty input keeps `last`.
pub open spec fn run_spec(
    frames: Seq<FrameModel>,
    text: Seq<char>,
    pos: int,
    fuel: nat,
    last: ValueModel,
) -> (Seq<FrameModel>, Result<ValueModel, EvalErrorKind>)
    decreases text.len() - pos,
{
    match parse_form(text, pos) {
        ParseOutcome::NoForm => (frames, Ok(last)),
        ParseOutcome::Fail { err } => (frames, Err(EvalErrorKind::Syntax(err))),
        ParseOutcome::Form { e, next } => {
            let st = eval_expr(frames, 0, e, fuel);
            match st.res {
                Ok(v) => {
                    if pos < next <= text.len() {
                        run_spec(st.frames, text, next, fuel, v)
                    } else {
                        (st.frames, Err(EvalErrorKind::Syntax(crate::parser::ParseError::Lexical)))
                    }
                },
                Err(k) => (st.frames, Err(k)),
            }
        },
    }
}

/// A successful evaluation's textual output.
#[derive(Debug)]
pub struct EvalOutput {
    pub output: String,
}

/// An interpreter session: feed it source text, get text or an error
/// back.
pub trait Interpreter {
    spec fn wf(&self) -> bool;

    fn eval(&mut self, code: &str) -> (r: Result<EvalOutput, EvalError>)
        requires
            old(self).wf(),
        ensures
            final(self).wf(),
    ;
}

/// The interpreter over one persistent global environment.
pub struct BasicInterpreter {
    env: Environment,
}

impl BasicInterpreter {
    /// The session's environment, as the contracts see it.
    pub closed spec fn env_model(&self) -> Seq<FrameModel> {
        self.env@
    }

    /// The session's environment is well-formed.
    pub open spec fn session_wf(&self) -> bool {
        env_ok(self.env_model())
    }

    /// A fresh session over a fresh global environment.
    pub fn new() -> (r: BasicInterpreter)
        ensures
            r.session_wf(),
            r.env_model() == initial_env(),
    {
        let env = Environment::new();
        proof {
            assert forall|i: int| 0 <= i < env@.len() implies frame_values_ok(
                #[trigger] env@[i],
                env@.len() as int,
            ) by {
                assert(env@[0].bindings =~= initial_env()[0].bindings);
                assert forall|j: int| 0 <= j < env@[i].bindings.len() implies value_ok(
                    #[trigger] env@[i].bindings[j].val,
                    env@.len() as int,
                ) by {
                    assert(env@[i].bindings[j].val is Symbol);
                }
            }
        }
        BasicInterpreter { env }
    }

    /// Scan, parse and evaluate every top-level form of `code` in the
    /// session's global frame, and render the last value.
    #[verifier::loop_isolation(false)]
    pub fn eval_code(&mut self, code: &str) -> (r: Result<EvalOutput, EvalError>)
        requires
            old(self).session_wf(),
        ensures
            final(self).session_wf(),
            ({
                let run = run_spec(
                    old(self).env_model(),
                    code@,
                    0,
                    EVAL_FUEL as nat,
                    ValueModel::Unit,
                );
                &&& final(self).env_model() == run.0
                &&& match r {
                    Ok(out) => run.1 is Ok && out.output@ == render_model(run.1->Ok_0),
                    Err(err) => run.1 == Err::<ValueModel, EvalErrorKind>(err.kind),
                }
            }),
    {
        let mut scanner = StringScanner::new(code);
        let mut last = Value::Unit;
        let ghost frames0 = self.env.view();
        loop
            invariant
                scanner.wf(),
                scanner.text_model() == code@,
                env_ok(self.env@),
                value_ok(value_model(last), self.env@.len() as int),
                run_spec(frames0, code@, 0, EVAL_FUEL as nat, ValueModel::Unit) == run_spec(
                    self.env@,
                    code@,
                    scanner.pos(),
                    EVAL_FUEL as nat,
                    value_model(last),
                ),
            decreases code@.len() - scanner.pos(),
        {
            let ghost pre_env = self.env.view();
            let ghost pre_pos = scanner.pos();
            let ghost pre_last = value_model(last);
            proof {
                crate::parser::lemma_parse_form_bounds(code@, scanner.pos());
                crate::parser::lemma_parse_form_ok(code@, scanner.pos());
            }
            match crate::parser::parse_next(&mut scanner) {
                Ok(Some(e)) => {
                    match eval_in(&mut self.env, 0, &e, EVAL_FUEL) {
                        Ok(v) => {
                            last = v;
                            proof {
                                assert(run_spec(
                                    pre_env,
                                    code@,
                                    pre_pos,
                                    EVAL_FUEL as nat,
                                    pre_last,
                                ) == run_spec(
                                    self.env.view(),
                                    code@,
                                    scanner.pos(),
                                    EVAL_FUEL as nat,
                                    value_model(last),
                                ));
                            }
                        },
                        Err(err) => {
                            proof {
                                assert(run_spec(
                                    pre_env,
                                    code@,
                                    pre_pos,
                                    EVAL_FUEL as nat,
                                    pre_last,
                                ) == (self.env.view(), Err::<ValueModel, EvalErrorKind>(
                                    err.kind,
                                )));
                            }
                            return Err(err);
                        },
                    }
                },
                Ok(None) => {
                    proof {
                        assert(run_spec(pre_env, code@, pre_pos, EVAL_FUEL as nat, pre_last)
                            == (pre_env, Ok::<ValueModel, EvalErrorKind>(pre_last)));
                    }
                    let text = render_value(&last);
                    let out = crate::chars_to_string(&text);
                    return Ok(EvalOutput { output: out });
                },
                Err(perr) => {
                    proof {
                        assert(run_spec(pre_env, code@, pre_pos, EVAL_FUEL as nat, pre_last)
                            == (pre_env, Err::<ValueModel, EvalErrorKind>(
                            EvalErrorKind::Syntax(perr),
                        )));
                    }
                    return Err(EvalError { kind: EvalErrorKind::Syntax(perr) });
                },
            }
        }
    }
}

impl Interpreter for BasicInterpreter {
    open spec fn wf(&self) -> bool {
        self.session_wf()
    }

    fn eval(&mut self, code: &str) -> (r: Result<EvalOutput, EvalError>)
        ensures
            ({
                let run = run_spec(
                    old(self).env_model(),
                    code@,
                    0,
                    EVAL_FUEL as nat,
                    ValueModel::Unit,
                );
                &&& final(self).env_model() == run.0
                &&& match r {
                    Ok(out) => run.1 is Ok && out.output@ == render_model(run.1->Ok_0),
                    Err(err) => run.1 == Err::<ValueModel, EvalErrorKind>(err.kind),
                }
            }),
    {
        self.eval_code(code)
    }
}

} // verus!
