//! A small interpreter for a LISP-family language.
//!
//! Source text is turned into tokens by the scanner, tokens into
//! S-expression trees by the parser, and trees into values by the
//! evaluator, which walks them against a chain of variable-binding
//! environments.

pub mod ast;
pub mod env;
pub mod eval;
pub mod interpreter;
pub mod number;
pub mod parser;
pub mod scanner;

use vstd::prelude::*;
use vstd::string::StrSliceExecFns;

verus! {

/// Whitespace and control characters that separate tokens: space, tab,
/// newline, carriage return and the null character.
pub open spec fn is_white(c: char) -> bool {
    c == ' ' || c == '\t' || c == '\n' || c == '\r' || c == '\u{0}'
}

/// Executable twin of [`is_white`].
pub fn white_char(c: char) -> (r: bool)
    ensures
        r == is_white(c),
{
    c == ' ' || c == '\t' || c == '\n' || c == '\r' || c == '\u{0}'
}

/// Relies on `core::iter::Iterator::collect` to build a `String`
/// from its characters, in order.
#[verifier::external_body]
pub(crate) fn chars_to_string(v: &Vec<char>) -> (r: String)
    ensures
        r@ == v@,
{
    v.iter().collect()
}

/// Whether two character vectors hold the same text.
pub fn char_vec_eq(a: &Vec<char>, b: &Vec<char>) -> (r: bool)
    ensures
        r == (a@ == b@),
{
    if a.len() != b.len() {
        return false;
    }
    let mut i: usize = 0;
    while i < a.len()
        invariant
            a@.len() == b@.len(),
            i <= a@.len(),
            forall|j: int| 0 <= j < i ==> a@[j] == b@[j],
        decreases a@.len() - i,
    {
        if a[i] != b[i] {
            return false;
        }
        i += 1;
    }
    proof {
        assert(a@ =~= b@);
    }
    true
}

/// End of the run of trailing whitespace: the first position at or
/// before `i` with no whitespace immediately before it.
pub open spec fn rskip_ws(text: Seq<char>, i: int) -> int
    decreases i,
{
    if 0 < i <= text.len() && is_white(text[i - 1]) {
        rskip_ws(text, i - 1)
    } else {
        i
    }
}

/// A line with its leading and trailing whitespace removed.
pub open spec fn cleaned(s: Seq<char>) -> Seq<char> {
    let a = crate::scanner::skip_ws(s, 0);
    let b = rskip_ws(s, s.len() as int);
    if a <= b {
        s.subrange(a, b)
    } else {
        Seq::empty()
    }
}

/// Strip leading and trailing whitespace from a line of input.
#[verifier::loop_isolation(false)]
pub fn clean_input(s: &str) -> (r: Vec<char>)
    ensures
        r@ == cleaned(s@),
{
    let n = s.unicode_len();
    let mut v: Vec<char> = Vec::new();
    let mut i: usize = 0;
    while i < n
        invariant
            i <= n,
            n == s@.len(),
            v@ == s@.subrange(0, i as int),
        decreases n - i,
    {
        v.push(s.get_char(i));
        proof {
            assert(v@ =~= s@.subrange(0, i + 1 as int));
        }
        i += 1;
    }
    proof {
        assert(v@ =~= s@);
    }
    let mut a: usize = 0;
    while a < n && white_char(v[a])
        invariant
            a <= n,
            crate::scanner::skip_ws(s@, 0) == crate::scanner::skip_ws(s@, a as int),
        decreases n - a,
    {
        a += 1;
    }
    let mut b: usize = n;
    while b > 0 && white_char(v[b - 1])
        invariant
            b <= n,
            rskip_ws(s@, n as int) == rskip_ws(s@, b as int),
        decreases b,
    {
        b -= 1;
    }
    let mut r: Vec<char> = Vec::new();
    if a <= b {
        let mut j: usize = a;
        while j < b
            invariant
                a <= j <= b <= n,
                r@ == s@.subrange(a as int, j as int),
            decreases b - j,
        {
            r.push(v[j]);
            proof {
                assert(r@ =~= s@.subrange(a as int, j + 1 as int));
            }
            j += 1;
        }
    }
    proof {
        if a <= b {
            assert(r@ =~= cleaned(s@));
        } else {
            assert(r@ =~= cleaned(s@));
        }
    }
    r
}

/// Copy a vector of plainly copyable elements.
pub fn copy_vec<T: Copy>(v: &Vec<T>) -> (r: Vec<T>)
    ensures
        r@ == v@,
{
    let mut r: Vec<T> = Vec::new();
    let mut i: usize = 0;
    while i < v.len()
        invariant
            i <= v.len(),
            r@ == v@.subrange(0, i as int),
        decreases v.len() - i,
    {
        r.push(v[i]);
        proof {
            assert(r@ =~= v@.subrange(0, i + 1 as int));
        }
        i += 1;
    }
    proof {
        assert(r@ =~= v@);
    }
    r
}

} // verus!
