//! Variable-binding environments with nested lexical scopes.
//!
//! An [`Environment`] is an arena of frames.  Each frame maps symbol
//! names to values and may link to an enclosing (parent) frame that
//! was created earlier.  Lookup walks the chain from the innermost
//! frame outward and returns the first match; defining a name in a
//! frame shadows, but never mutates, a same-named binding in an
//! enclosing frame.  The global frame sits at index zero and holds the
//! built-in arithmetic operator names, each bound to the symbol value
//! naming itself.  Frames created for function calls and `let` forms
//! are retained in the arena for the life of the session, so closure
//! values can refer to their defining frame by index.

use vstd::prelude::*;
use crate::ast::Value;
use crate::ast::ValueModel;

verus! {

/// One name-to-value binding.
pub struct Binding {
    pub name: Vec<char>,
    pub val: Value,
}

/// Ghost shape of a binding.
#[verifier::ext_equal]
pub struct BindingModel {
    pub name: Seq<char>,
    pub val: ValueModel,
}

impl View for Binding {
    type V = BindingModel;

    open spec fn view(&self) -> BindingModel {
        BindingModel { name: self.name@, val: self.val@ }
    }
}

/// One scope: its bindings, newest last, and the index of the
/// enclosing frame, if any.
pub struct Frame {
    pub bindings: Vec<Binding>,
    pub parent: Option<usize>,
}

/// Ghost shape of a frame.
#[verifier::ext_equal]
pub struct FrameModel {
    pub bindings: Seq<BindingModel>,
    pub parent: Option<int>,
}

impl View for Frame {
    type V = FrameModel;

    open spec fn view(&self) -> FrameModel {
        FrameModel {
            bindings: Seq::new(self.bindings@.len(), |i: int| self.bindings@[i]@),
            parent: match self.parent {
                Some(p) => Some(p as int),
                None => None,
            },
        }
    }
}

/// A frame's parent, if any, was created strictly earlier.
pub open spec fn frame_parent_ok(f: FrameModel, i: int) -> bool {
    match f.parent {
        Some(p) => 0 <= p < i,
        None => true,
    }
}

/// The arena is non-empty (the global frame exists) and every parent
/// link points to an earlier frame, so chains cannot cycle.
pub open spec fn env_wf(frames: Seq<FrameModel>) -> bool {
    &&& frames.len() >= 1
    &&& forall|i: int| 0 <= i < frames.len() ==> frame_parent_ok(#[trigger] frames[i], i)
}

/// The value bound to `name` in one frame's own bindings: the newest
/// binding wins.
pub open spec fn lookup_frame(bindings: Seq<BindingModel>, name: Seq<char>) -> Option<ValueModel>
    decreases bindings.len(),
{
    if bindings.len() == 0 {
        None
    } else if bindings.last().name == name {
        Some(bindings.last().val)
    } else {
        lookup_frame(bindings.drop_last(), name)
    }
}

/// The value bound to `name` in the chain that starts at frame `e`:
/// the innermost match wins.
pub open spec fn lookup_env(frames: Seq<FrameModel>, e: int, name: Seq<char>) -> Option<ValueModel>
    decreases e,
{
    if 0 <= e < frames.len() {
        match lookup_frame(frames[e].bindings, name) {
            Some(v) => Some(v),
            None => match frames[e].parent {
                Some(p) => if 0 <= p < e {
                    lookup_env(frames, p, name)
                } else {
                    None
                },
                None => None,
            },
        }
    } else {
        None
    }
}

/// The binding each built-in operator name starts with: the symbol
/// value naming itself.
pub open spec fn builtin_binding(c: char) -> BindingModel {
    BindingModel { name: seq![c], val: ValueModel::Symbol(seq![c]) }
}

/// The global frame a fresh environment starts with: `+ - * / =`
/// bound to themselves.
pub open spec fn initial_env() -> Seq<FrameModel> {
    seq![
        FrameModel {
            bindings: seq![
                builtin_binding('+'),
                builtin_binding('-'),
                builtin_binding('*'),
                builtin_binding('/'),
                builtin_binding('='),
            ],
            parent: None,
        },
    ]
}

/// The arena of frames.  Index zero is the global frame.
pub struct Environment {
    frames: Vec<Frame>,
}

impl View for Environment {
    type V = Seq<FrameModel>;

    closed spec fn view(&self) -> Seq<FrameModel> {
        Seq::new(self.frames@.len(), |i: int| self.frames@[i]@)
    }
}

impl Environment {
    /// A fresh global environment holding only the built-in operator
    /// names.
    pub fn new() -> (r: Environment)
        ensures
            r@ == initial_env(),
            env_wf(r@),
    {
        let mut bindings: Vec<Binding> = Vec::new();
        bindings.push(op_binding('+'));
        bindings.push(op_binding('-'));
        bindings.push(op_binding('*'));
        bindings.push(op_binding('/'));
        bindings.push(op_binding('='));
        let mut frames: Vec<Frame> = Vec::new();
        frames.push(Frame { bindings, parent: None });
        let r = Environment { frames };
        proof {
            assert(r@ =~~= initial_env());
        }
        r
    }

    /// How many frames the arena holds.
    pub fn frame_count(&self) -> (n: usize)
        ensures
            n == self@.len(),
    {
        self.frames.len()
    }

    /// Look `name` up along the chain that starts at frame `scope`.
    pub fn lookup(&self, scope: usize, name: &Vec<char>) -> (r: Option<Value>)
        requires
            env_wf(self@),
            scope < self@.len(),
        ensures
            match r {
                Some(v) => lookup_env(self@, scope as int, name@) == Some(v@),
                None => lookup_env(self@, scope as int, name@) is None,
            },
        decreases scope,
    {
        let frame = &self.frames[scope];
        let mut j: usize = frame.bindings.len();
        proof {
            assert(frame@ == self@[scope as int]);
            assert(frame@.bindings =~= frame@.bindings.take(j as int));
        }
        while j > 0
            invariant
                env_wf(self@),
                scope < self@.len(),
                j <= frame.bindings@.len(),
                frame@ == self@[scope as int],
                lookup_frame(self@[scope as int].bindings, name@) == lookup_frame(
                    frame@.bindings.take(j as int),
                    name@,
                ),
            decreases j,
        {
            if crate::char_vec_eq(&frame.bindings[j - 1].name, name) {
                proof {
                    assert(frame@.bindings.take(j as int).last() == frame.bindings@[j - 1]@);
                }
                return Some(frame.bindings[j - 1].val.clone());
            }
            proof {
                assert(frame@.bindings.take(j as int).drop_last() =~= frame@.bindings.take(
                    j - 1,
                ));
                assert(frame@.bindings.take(j as int).last() == frame.bindings@[j - 1]@);
            }
            j = j - 1;
        }
        proof {
            assert(frame@.bindings.take(0) =~= Seq::<BindingModel>::empty());
        }
        match frame.parent {
            Some(p) => {
                proof {
                    assert(frame_parent_ok(self@[scope as int], scope as int));
                }
                self.lookup(p, name)
            },
            None => None,
        }
    }

    /// Bind `name` to `val` in frame `scope`, shadowing any older
    /// binding of the same name reachable from it.
    pub fn define(&mut self, scope: usize, name: Vec<char>, val: Value)
        requires
            env_wf(old(self)@),
            scope < old(self)@.len(),
        ensures
            env_wf(final(self)@),
            final(self)@ == old(self)@.update(
                scope as int,
                FrameModel {
                    bindings: old(self)@[scope as int].bindings.push(
                        BindingModel { name: name@, val: val@ },
                    ),
                    parent: old(self)@[scope as int].parent,
                },
            ),
    {
        let ghost gname = name@;
        let ghost gval = val@;
        self.frames[scope].bindings.push(Binding { name, val });
        proof {
            assert(self@ =~~= old(self)@.update(
                scope as int,
                FrameModel {
                    bindings: old(self)@[scope as int].bindings.push(
                        BindingModel { name: gname, val: gval },
                    ),
                    parent: old(self)@[scope as int].parent,
                },
            ));
            assert forall|i: int| 0 <= i < self@.len() implies frame_parent_ok(
                #[trigger] self@[i],
                i,
            ) by {
                assert(frame_parent_ok(old(self)@[i], i));
            }
        }
    }

    /// Open a fresh, empty frame whose parent is `parent`, and hand
    /// back its index.
    pub fn push_frame(&mut self, parent: usize) -> (idx: usize)
        requires
            env_wf(old(self)@),
            parent < old(self)@.len(),
        ensures
            env_wf(final(self)@),
            idx == old(self)@.len(),
            final(self)@ == old(self)@.push(
                FrameModel { bindings: Seq::empty(), parent: Some(parent as int) },
            ),
    {
        let idx = self.frames.len();
        self.frames.push(Frame { bindings: Vec::new(), parent: Some(parent) });
        proof {
            assert(self@ =~~= old(self)@.push(
                FrameModel { bindings: Seq::empty(), parent: Some(parent as int) },
            ));
            assert forall|i: int| 0 <= i < self@.len() implies frame_parent_ok(
                #[trigger] self@[i],
                i,
            ) by {
                if i < old(self)@.len() {
                    assert(frame_parent_ok(old(self)@[i], i));
                }
            }
        }
        idx
    }
}

/// The initial binding of one built-in operator name.
fn op_binding(c: char) -> (r: Binding)
    ensures
        r@ == builtin_binding(c),
{
    let mut name: Vec<char> = Vec::new();
    name.push(c);
    let mut text: Vec<char> = Vec::new();
    text.push(c);
    let r = Binding { name, val: Value::Symbol(text) };
    proof {
        assert(r@.name =~= seq![c]);
        assert(r@.val->Symbol_0 =~= seq![c]);
        assert(r@ =~~= builtin_binding(c));
    }
    r
}

} // verus!
