//! Lexical scanner: turns source text into a stream of typed tokens.
//!
//! The scanner is pull-based: each call to [`StringScanner::scan_next_token`]
//! (or [`Scanner::next`]) skips whitespace and then accepts exactly one
//! token, recording it as the current token.  Reaching the end of the
//! input is reported as a [`ScanError`] with `is_end_of_input` set and
//! `is_error` clear; a genuine lexical fault (an unrecognized character,
//! an unterminated string literal) sets `is_error`.

use vstd::prelude::*;
use vstd::string::StrSliceExecFns;
use vstd::string::StringExecFns;
use crate::is_white;
use crate::white_char;

verus! {

/// The closed set of lexical categories.
#[derive(Debug, PartialEq, Eq, Copy, Clone, Structural)]
pub enum TokenKind {
    // operators and punctuation
    LeftParen,
    RightParen,
    Apostrophe,
    Add,
    Sub,
    Mult,
    Div,
    Eq,
    // literal classes
    Number,
    Symbol,
    Str,
}

/// A token: its category together with the exact source substring
/// (lexeme) it was scanned from.  For string literals the lexeme
/// excludes the surrounding quotes.
#[derive(Debug)]
pub struct Token {
    pub kind: TokenKind,
    pub lexeme: Vec<char>,
}

/// Ghost shape of a [`Token`]: the lexeme as a sequence of characters.
pub struct TokenModel {
    pub kind: TokenKind,
    pub lexeme: Seq<char>,
}

impl View for Token {
    type V = TokenModel;

    open spec fn view(&self) -> TokenModel {
        TokenModel { kind: self.kind, lexeme: self.lexeme@ }
    }
}

impl Clone for Token {
    fn clone(&self) -> (r: Self)
        ensures
            r@ == self@,
    {
        Token { kind: self.kind, lexeme: crate::copy_vec(&self.lexeme) }
    }
}

/// The scanner's failure report.  The two flags are independent and the
/// caller must check both: `end` marks the normal end of the input (not
/// a fault), `err` marks an unrecoverable lexical fault.
#[derive(Debug, Clone)]
pub struct ScanError {
    msg: String,
    end: bool,
    err: bool,
}

impl ScanError {
    /// Ghost view of the message text.
    pub closed spec fn msg_view(&self) -> Seq<char> {
        self.msg@
    }

    /// True when scanning stopped because the source was exhausted.
    pub closed spec fn spec_is_end_of_input(&self) -> bool {
        self.end
    }

    /// True when scanning hit an unrecoverable lexical fault.
    pub closed spec fn spec_is_error(&self) -> bool {
        self.err
    }

    #[allow(non_snake_case)]
    pub fn newFromStr(msg: &str, end: bool, err: bool) -> (r: ScanError)
        ensures
            r.msg_view() == msg@,
            r.spec_is_end_of_input() == end,
            r.spec_is_error() == err,
    {
        ScanError { msg: String::from_str(msg), end, err }
    }

    pub fn new(msg: String, end: bool, err: bool) -> (r: ScanError)
        ensures
            r.msg_view() == msg@,
            r.spec_is_end_of_input() == end,
            r.spec_is_error() == err,
    {
        ScanError { msg, end, err }
    }

    pub fn is_end_of_input(&self) -> (r: bool)
        ensures
            r == self.spec_is_end_of_input(),
    {
        self.end
    }

    pub fn is_error(&self) -> (r: bool)
        ensures
            r == self.spec_is_error(),
    {
        self.err
    }

    /// The stored message.
    pub fn message(&self) -> (r: &str)
        ensures
            r@ == self.msg_view(),
    {
        self.msg.as_str()
    }
}

/// Letters begin symbols.
pub open spec fn is_letter(c: char) -> bool {
    (65 <= c as u32 && c as u32 <= 90) || (97 <= c as u32 && c as u32 <= 122)
}

/// Decimal digits begin numbers and may continue symbols.
pub open spec fn is_digit(c: char) -> bool {
    48 <= c as u32 && c as u32 <= 57
}

/// Characters that may continue a symbol: letters and digits.
pub open spec fn is_symbol_char(c: char) -> bool {
    is_letter(c) || is_digit(c)
}

/// The single-character tokens and their categories.
pub open spec fn single_char_kind(c: char) -> Option<TokenKind> {
    if c == '(' {
        Some(TokenKind::LeftParen)
    } else if c == ')' {
        Some(TokenKind::RightParen)
    } else if c == '\'' {
        Some(TokenKind::Apostrophe)
    } else if c == '+' {
        Some(TokenKind::Add)
    } else if c == '-' {
        Some(TokenKind::Sub)
    } else if c == '*' {
        Some(TokenKind::Mult)
    } else if c == '/' {
        Some(TokenKind::Div)
    } else if c == '=' {
        Some(TokenKind::Eq)
    } else {
        None
    }
}

/// First position at or after `i` holding a non-whitespace character,
/// or the text's length if only whitespace remains.
pub open spec fn skip_ws(text: Seq<char>, i: int) -> int
    decreases text.len() - i,
{
    if 0 <= i && i < text.len() && is_white(text[i]) {
        skip_ws(text, i + 1)
    } else {
        i
    }
}

/// End of the maximal run of symbol characters starting at `i`.
pub open spec fn symbol_end(text: Seq<char>, i: int) -> int
    decreases text.len() - i,
{
    if 0 <= i && i < text.len() && is_symbol_char(text[i]) {
        symbol_end(text, i + 1)
    } else {
        i
    }
}

/// End of the maximal run of digits (with at most one decimal point)
/// starting at `i`; `seen_dot` records whether a decimal point was
/// already consumed.
pub open spec fn number_end(text: Seq<char>, i: int, seen_dot: bool) -> int
    decreases text.len() - i,
{
    if 0 <= i && i < text.len() && is_digit(text[i]) {
        number_end(text, i + 1, seen_dot)
    } else if 0 <= i && i < text.len() && text[i] == '.' && !seen_dot {
        number_end(text, i + 1, true)
    } else {
        i
    }
}

/// Position of the first `"` at or after `i`, or the text's length if
/// there is none.
pub open spec fn quote_end(text: Seq<char>, i: int) -> int
    decreases text.len() - i,
{
    if 0 <= i && i < text.len() && text[i] != '"' {
        quote_end(text, i + 1)
    } else {
        i
    }
}

/// The message of an unrecognized-character fault: it carries the
/// offending character.
pub open spec fn unexpected_char_msg(c: char) -> Seq<char> {
    seq![
        'u', 'n', 'e', 'x', 'p', 'e', 'c', 't', 'e', 'd', ' ', 'c', 'h', 'a', 'r', 'a', 'c',
        't', 'e', 'r', ':', ' ', c,
    ]
}

/// Build the unrecognized-character error for the offending `c`.
fn unexpected_char_error(c: char) -> (r: ScanError)
    ensures
        r.msg_view() == unexpected_char_msg(c),
        !r.spec_is_end_of_input(),
        r.spec_is_error(),
{
    let mut m: Vec<char> = Vec::new();
    m.push('u');
    m.push('n');
    m.push('e');
    m.push('x');
    m.push('p');
    m.push('e');
    m.push('c');
    m.push('t');
    m.push('e');
    m.push('d');
    m.push(' ');
    m.push('c');
    m.push('h');
    m.push('a');
    m.push('r');
    m.push('a');
    m.push('c');
    m.push('t');
    m.push('e');
    m.push('r');
    m.push(':');
    m.push(' ');
    m.push(c);
    proof {
        assert(m@ =~= unexpected_char_msg(c));
    }
    ScanError::new(crate::chars_to_string(&m), false, true)
}

/// What one scanning step does, starting at a given position: the
/// accepted token with its lexeme bounds and the next position, the end
/// of the input, or one of the two lexical faults.  On a fault, `at` is
/// the position of the offending character (the opening quote for an
/// unterminated string literal).
pub enum ScanStep {
    Accepted { kind: TokenKind, start: int, end: int, next: int },
    EndOfInput,
    UnexpectedChar { at: int },
    UnterminatedString { at: int },
}

/// The scanner's one-token step function: skip whitespace, then
/// dispatch on the first character.
pub open spec fn scan_step(text: Seq<char>, pos: int) -> ScanStep {
    let p = skip_ws(text, pos);
    if p >= text.len() {
        ScanStep::EndOfInput
    } else {
        let c = text[p];
        if single_char_kind(c) is Some {
            ScanStep::Accepted {
                kind: single_char_kind(c)->Some_0,
                start: p,
                end: p + 1,
                next: p + 1,
            }
        } else if c == '"' {
            let q = quote_end(text, p + 1);
            if q < text.len() {
                ScanStep::Accepted { kind: TokenKind::Str, start: p + 1, end: q, next: q + 1 }
            } else {
                ScanStep::UnterminatedString { at: p }
            }
        } else if is_letter(c) {
            ScanStep::Accepted {
                kind: TokenKind::Symbol,
                start: p,
                end: symbol_end(text, p),
                next: symbol_end(text, p),
            }
        } else if is_digit(c) {
            ScanStep::Accepted {
                kind: TokenKind::Number,
                start: p,
                end: number_end(text, p, false),
                next: number_end(text, p, false),
            }
        } else {
            ScanStep::UnexpectedChar { at: p }
        }
    }
}

/// Whitespace-only text is skipped whole.
proof fn lemma_skip_ws_all_white(text: Seq<char>, i: int)
    requires
        0 <= i <= text.len(),
        forall|k: int| 0 <= k < text.len() ==> is_white(#[trigger] text[k]),
    ensures
        skip_ws(text, i) == text.len(),
    decreases text.len() - i,
{
    if i < text.len() {
        lemma_skip_ws_all_white(text, i + 1);
    }
}

/// Law: on input consisting solely of whitespace and control
/// characters the scanner's first step reports the end of the input,
/// never a fault.
pub proof fn lemma_whitespace_only_scan(text: Seq<char>)
    requires
        forall|k: int| 0 <= k < text.len() ==> is_white(#[trigger] text[k]),
    ensures
        scan_step(text, 0) is EndOfInput,
{
    lemma_skip_ws_all_white(text, 0);
}

/// Bounds of the whitespace run: skipping never rewinds and never
/// passes the end of the text.
pub proof fn lemma_skip_ws_bounds(text: Seq<char>, i: int)
    requires
        0 <= i <= text.len(),
    ensures
        i <= skip_ws(text, i) <= text.len(),
    decreases text.len() - i,
{
    if i < text.len() && is_white(text[i]) {
        lemma_skip_ws_bounds(text, i + 1);
    }
}

/// Skipping whitespace is idempotent.
pub proof fn lemma_skip_ws_idempotent(text: Seq<char>, i: int)
    requires
        0 <= i <= text.len(),
    ensures
        skip_ws(text, skip_ws(text, i)) == skip_ws(text, i),
    decreases text.len() - i,
{
    if i < text.len() && is_white(text[i]) {
        lemma_skip_ws_idempotent(text, i + 1);
    } else {
        lemma_skip_ws_bounds(text, i);
    }
}

/// Bounds of the symbol run.
pub proof fn lemma_symbol_end_bounds(text: Seq<char>, i: int)
    requires
        0 <= i <= text.len(),
    ensures
        i <= symbol_end(text, i) <= text.len(),
    decreases text.len() - i,
{
    if i < text.len() && is_symbol_char(text[i]) {
        lemma_symbol_end_bounds(text, i + 1);
    }
}

/// Bounds of the number run.
pub proof fn lemma_number_end_bounds(text: Seq<char>, i: int, seen_dot: bool)
    requires
        0 <= i <= text.len(),
    ensures
        i <= number_end(text, i, seen_dot) <= text.len(),
    decreases text.len() - i,
{
    if i < text.len() && is_digit(text[i]) {
        lemma_number_end_bounds(text, i + 1, seen_dot);
    } else if i < text.len() && text[i] == '.' && !seen_dot {
        lemma_number_end_bounds(text, i + 1, true);
    }
}

/// Bounds of the search for a closing quote.
pub proof fn lemma_quote_end_bounds(text: Seq<char>, i: int)
    requires
        0 <= i <= text.len(),
    ensures
        i <= quote_end(text, i) <= text.len(),
    decreases text.len() - i,
{
    if i < text.len() && text[i] != '"' {
        lemma_quote_end_bounds(text, i + 1);
    }
}

/// The search for a closing quote stops at one: when it stops inside
/// the text the character there is `\"`, and none occurs before it.
proof fn lemma_quote_end_props(text: Seq<char>, i: int)
    requires
        0 <= i <= text.len(),
    ensures
        quote_end(text, i) < text.len() ==> text[quote_end(text, i)] == '"',
        forall|k: int| i <= k < quote_end(text, i) ==> #[trigger] text[k] != '"',
    decreases text.len() - i,
{
    if i < text.len() && text[i] != '"' {
        lemma_quote_end_props(text, i + 1);
    }
}

/// Law: an accepted string literal's lexeme is exactly the text
/// strictly between the two quotes: the characters on either side of
/// it are the quotes, no quote occurs inside it, and scanning resumes
/// just past the closing quote.
pub proof fn lemma_string_lexeme_between_quotes(text: Seq<char>, pos: int)
    requires
        0 <= pos <= text.len(),
    ensures
        match scan_step(text, pos) {
            ScanStep::Accepted { kind, start, end, next } => kind == TokenKind::Str ==> {
                &&& 0 < start <= end < text.len()
                &&& text[start - 1] == '"'
                &&& text[end] == '"'
                &&& (forall|k: int| start <= k < end ==> #[trigger] text[k] != '"')
                &&& next == end + 1
            },
            _ => true,
        },
{
    lemma_skip_ws_bounds(text, pos);
    let p = skip_ws(text, pos);
    if p < text.len() {
        let c = text[p];
        assert(single_char_kind(c) is Some ==> single_char_kind(c)->Some_0 != TokenKind::Str);
        if single_char_kind(c) is None && c == '"' {
            lemma_quote_end_props(text, p + 1);
            lemma_quote_end_bounds(text, p + 1);
        }
    }
}

/// Every accepted token has a well-formed lexeme and strictly advances
/// the position; every fault points at a character of the text.
pub proof fn lemma_scan_progress(text: Seq<char>, pos: int)
    requires
        0 <= pos <= text.len(),
    ensures
        match scan_step(text, pos) {
            ScanStep::Accepted { kind, start, end, next } => {
                &&& pos <= start <= end <= text.len()
                &&& pos < next <= text.len()
                &&& end <= next
            },
            ScanStep::EndOfInput => true,
            ScanStep::UnexpectedChar { at } => pos <= at < text.len(),
            ScanStep::UnterminatedString { at } => pos <= at < text.len(),
        },
{
    lemma_skip_ws_bounds(text, pos);
    let p = skip_ws(text, pos);
    if p < text.len() {
        let c = text[p];
        if single_char_kind(c) is Some {
        } else if c == '"' {
            lemma_quote_end_bounds(text, p + 1);
        } else if is_letter(c) {
            lemma_symbol_end_bounds(text, p + 1);
            assert(symbol_end(text, p) == symbol_end(text, p + 1));
        } else if is_digit(c) {
            lemma_number_end_bounds(text, p + 1, false);
            assert(number_end(text, p, false) == number_end(text, p + 1, false));
        }
    }
}

/// Pull-based scanner interface: `next` attempts to accept one token,
/// `get_token` hands back a copy of the most recently accepted one, or
/// `None` if none was accepted yet or the last attempt failed.
pub trait Scanner {
    fn get_token(&self) -> Option<Token>;

    fn next(&mut self) -> Result<(), ScanError>;
}

/// A scanner over an in-memory character sequence.
pub struct StringScanner {
    text: Vec<char>,
    length: usize,
    position: usize,
    marker: usize,
    current_token: Option<Token>,
}

impl StringScanner {
    /// The scanned text.
    pub closed spec fn text_model(&self) -> Seq<char> {
        self.text@
    }

    /// The current position.
    pub closed spec fn pos(&self) -> int {
        self.position as int
    }

    /// The most recently accepted token, if the last attempt succeeded.
    pub closed spec fn current(&self) -> Option<TokenModel> {
        match self.current_token {
            Some(t) => Some(t@),
            None => None,
        }
    }

    /// Internal consistency of the cached length and marker.
    pub closed spec fn inv(&self) -> bool {
        &&& self.length == self.text@.len()
        &&& self.position <= self.length
        &&& self.marker <= self.length
    }

    /// Well-formed scanner: internally consistent, with the position
    /// inside the text.
    pub open spec fn wf(&self) -> bool {
        &&& self.inv()
        &&& 0 <= self.pos() <= self.text_model().len()
    }

    pub fn new(text: &str) -> (r: StringScanner)
        ensures
            r.wf(),
            r.text_model() == text@,
            r.pos() == 0,
            r.current() is None,
    {
        let n = text.unicode_len();
        let mut chars: Vec<char> = Vec::new();
        let mut i: usize = 0;
        while i < n
            invariant
                i <= n,
                n == text@.len(),
                chars@ == text@.subrange(0, i as int),
            decreases n - i,
        {
            chars.push(text.get_char(i));
            proof {
                assert(chars@ =~= text@.subrange(0, i + 1 as int));
            }
            i += 1;
        }
        proof {
            assert(chars@ =~= text@);
        }
        StringScanner { text: chars, length: n, position: 0, marker: 0, current_token: None }
    }

    /// Remember the current position as the start of the next lexeme.
    pub fn mark_current(&mut self)
        requires
            old(self).wf(),
        ensures
            final(self).wf(),
            final(self).pos() == old(self).pos(),
            final(self).text_model() == old(self).text_model(),
            final(self).current() == old(self).current(),
    {
        self.marker = self.position;
    }

    /// Move the position forward by `n` characters.
    pub fn advance(&mut self, n: usize)
        requires
            old(self).wf(),
            old(self).pos() + n <= old(self).text_model().len(),
        ensures
            final(self).wf(),
            final(self).pos() == old(self).pos() + n,
            final(self).text_model() == old(self).text_model(),
            final(self).current() == old(self).current(),
    {
        self.position = self.position + n;
        self.marker = self.position;
    }

    /// True when the whole text has been consumed.
    pub fn is_end(&self) -> (r: bool)
        requires
            self.wf(),
        ensures
            r == (self.pos() >= self.text_model().len()),
    {
        self.position >= self.length
    }

    /// The character at the current position.
    pub fn peek_char(&self) -> (c: char)
        requires
            self.wf(),
            self.pos() < self.text_model().len(),
        ensures
            c == self.text_model()[self.pos()],
    {
        self.text[self.position]
    }

    /// Skip the run of whitespace and control characters before the
    /// next token.
    pub fn skip_white_spaces(&mut self)
        requires
            old(self).wf(),
        ensures
            final(self).wf(),
            final(self).pos() == skip_ws(old(self).text_model(), old(self).pos()),
            final(self).text_model() == old(self).text_model(),
            final(self).current() == old(self).current(),
    {
        proof {
            lemma_skip_ws_bounds(self.text@, self.position as int);
        }
        while !(self.position >= self.length) && white_char(self.text[self.position])
            invariant
                self.wf(),
                self.text@ == old(self).text_model(),
                self.current() == old(self).current(),
                old(self).pos() <= self.pos(),
                skip_ws(self.text@, old(self).pos()) == skip_ws(self.text@, self.pos()),
            decreases self.length - self.position,
        {
            self.position = self.position + 1;
        }
        self.marker = self.position;
    }

    /// Copy the half-open range `start .. end` of the text.
    fn copy_range(&self, start: usize, end: usize) -> (r: Vec<char>)
        requires
            self.wf(),
            start <= end <= self.text@.len(),
        ensures
            r@ == self.text_model().subrange(start as int, end as int),
    {
        let mut r: Vec<char> = Vec::new();
        let mut i: usize = start;
        while i < end
            invariant
                self.wf(),
                start <= i <= end <= self.text@.len(),
                r@ == self.text@.subrange(start as int, i as int),
            decreases end - i,
        {
            r.push(self.text[i]);
            proof {
                assert(r@ =~= self.text@.subrange(start as int, i + 1 as int));
            }
            i += 1;
        }
        r
    }

    /// Record the token whose lexeme is the range `start .. end`.
    fn accept(&mut self, kind: TokenKind, start: usize, end: usize)
        requires
            old(self).wf(),
            start <= end <= old(self).text_model().len(),
        ensures
            final(self).wf(),
            final(self).pos() == old(self).pos(),
            final(self).text_model() == old(self).text_model(),
            final(self).current() == Some(
                TokenModel {
                    kind,
                    lexeme: old(self).text_model().subrange(start as int, end as int),
                },
            ),
    {
        let lexeme = self.copy_range(start, end);
        self.current_token = Some(Token { kind, lexeme });
    }

    /// Accept the single-character token at the current position.
    fn accept_single(&mut self, kind: TokenKind)
        requires
            old(self).wf(),
            old(self).pos() < old(self).text_model().len(),
        ensures
            final(self).wf(),
            final(self).pos() == old(self).pos() + 1,
            final(self).text_model() == old(self).text_model(),
            final(self).current() == Some(
                TokenModel {
                    kind,
                    lexeme: old(self).text_model().subrange(
                        old(self).pos(),
                        old(self).pos() + 1,
                    ),
                },
            ),
    {
        let p = self.position;
        self.accept(kind, p, p + 1);
        self.advance(1);
    }

    /// Scan a string literal: the current character is the opening
    /// quote.  The accepted lexeme excludes the surrounding quotes.  If
    /// the text ends before the closing quote, fails with a lexical
    /// error and leaves the position at the opening quote.
    fn begin_string(&mut self) -> (r: Result<(), ScanError>)
        requires
            old(self).wf(),
            old(self).pos() < old(self).text_model().len(),
            old(self).text_model()[old(self).pos()] == '"',
        ensures
            final(self).wf(),
            final(self).text_model() == old(self).text_model(),
            ({
                let q = quote_end(old(self).text_model(), old(self).pos() + 1);
                if q < old(self).text_model().len() {
                    &&& r is Ok
                    &&& final(self).pos() == q + 1
                    &&& final(self).current() == Some(
                        TokenModel {
                            kind: TokenKind::Str,
                            lexeme: old(self).text_model().subrange(old(self).pos() + 1, q),
                        },
                    )
                } else {
                    &&& r is Err
                    &&& !r->Err_0.spec_is_end_of_input()
                    &&& r->Err_0.spec_is_error()
                    &&& r->Err_0.msg_view() == "unterminated string literal"@
                    &&& final(self).pos() == old(self).pos()
                    &&& final(self).current() is None
                }
            }),
    {
        proof {
            lemma_quote_end_bounds(self.text@, self.position + 1 as int);
        }
        let open = self.position;
        let mut j: usize = self.position + 1;
        while j < self.length && self.text[j] != '"'
            invariant
                self == old(self),
                self.wf(),
                open == old(self).position,
                open + 1 <= j <= self.length,
                quote_end(self.text@, open + 1 as int) == quote_end(self.text@, j as int),
            decreases self.length - j,
        {
            j += 1;
        }
        if j < self.length {
            self.accept(TokenKind::Str, open + 1, j);
            self.position = j + 1;
            self.marker = self.position;
            Ok(())
        } else {
            self.current_token = None;
            Err(ScanError::newFromStr("unterminated string literal", false, true))
        }
    }

    /// Scan a symbol: the maximal run of letters and digits starting at
    /// the current (letter) position.
    fn begin_symbol(&mut self) -> (r: Result<(), ScanError>)
        requires
            old(self).wf(),
            old(self).pos() < old(self).text_model().len(),
        ensures
            final(self).wf(),
            final(self).text_model() == old(self).text_model(),
            r is Ok,
            final(self).pos() == symbol_end(old(self).text_model(), old(self).pos()),
            final(self).current() == Some(
                TokenModel {
                    kind: TokenKind::Symbol,
                    lexeme: old(self).text_model().subrange(
                        old(self).pos(),
                        symbol_end(old(self).text_model(), old(self).pos()),
                    ),
                },
            ),
    {
        proof {
            lemma_symbol_end_bounds(self.text@, self.position as int);
        }
        let start = self.position;
        loop
            invariant
                self.wf(),
                self.text@ == old(self).text_model(),
                self.marker == old(self).marker,
                start == old(self).position,
                start <= self.position,
                self.current() == old(self).current(),
                symbol_end(self.text@, start as int) == symbol_end(self.text@, self.pos()),
            ensures
                self.wf(),
                self.text@ == old(self).text_model(),
                self.marker == old(self).marker,
                start <= self.position,
                self.current() == old(self).current(),
                self.pos() == symbol_end(self.text@, start as int),
            decreases self.length - self.position,
        {
            if self.position < self.length {
                let c = self.text[self.position];
                let u = c as u32;
                if (65 <= u && u <= 90) || (97 <= u && u <= 122) || (48 <= u && u <= 57) {
                    self.position = self.position + 1;
                } else {
                    break;
                }
            } else {
                break;
            }
        }
        proof {
            lemma_symbol_end_bounds(self.text@, start as int);
        }
        let end = self.position;
        self.accept(TokenKind::Symbol, start, end);
        self.marker = self.position;
        Ok(())
    }

    /// Scan a number: the maximal run of digits with at most one
    /// decimal point, starting at the current (digit) position.
    fn begin_number(&mut self) -> (r: Result<(), ScanError>)
        requires
            old(self).wf(),
            old(self).pos() < old(self).text_model().len(),
        ensures
            final(self).wf(),
            final(self).text_model() == old(self).text_model(),
            r is Ok,
            final(self).pos() == number_end(old(self).text_model(), old(self).pos(), false),
            final(self).current() == Some(
                TokenModel {
                    kind: TokenKind::Number,
                    lexeme: old(self).text_model().subrange(
                        old(self).pos(),
                        number_end(old(self).text_model(), old(self).pos(), false),
                    ),
                },
            ),
    {
        proof {
            lemma_number_end_bounds(self.text@, self.position as int, false);
        }
        let start = self.position;
        let mut seen_dot = false;
        loop
            invariant
                self.wf(),
                self.text@ == old(self).text_model(),
                self.marker == old(self).marker,
                start == old(self).position,
                start <= self.position,
                self.current() == old(self).current(),
                number_end(self.text@, start as int, false) == number_end(
                    self.text@,
                    self.pos(),
                    seen_dot,
                ),
            ensures
                self.wf(),
                self.text@ == old(self).text_model(),
                self.marker == old(self).marker,
                start <= self.position,
                self.current() == old(self).current(),
                self.pos() == number_end(self.text@, start as int, false),
            decreases self.length - self.position + (if seen_dot { 0int } else { 1int }),
        {
            if self.position < self.length {
                let c = self.text[self.position];
                let u = c as u32;
                if 48 <= u && u <= 57 {
                    self.position = self.position + 1;
                } else if c == '.' && !seen_dot {
                    seen_dot = true;
                    self.position = self.position + 1;
                } else {
                    break;
                }
            } else {
                break;
            }
        }
        proof {
            lemma_number_end_bounds(self.text@, start as int, false);
        }
        let end = self.position;
        self.accept(TokenKind::Number, start, end);
        self.marker = self.position;
        Ok(())
    }

    /// Dispatch on the character at the current position (whitespace
    /// already skipped) and accept one token, or fail.
    fn try_look_ahead_and_accept(&mut self) -> (r: Result<(), ScanError>)
        requires
            old(self).wf(),
            skip_ws(old(self).text_model(), old(self).pos()) == old(self).pos(),
        ensures
            final(self).wf(),
            final(self).text_model() == old(self).text_model(),
            scan_next_token_post(*old(self), *final(self), r),
    {
        proof {
            lemma_scan_progress(self.text@, self.position as int);
        }
        if self.is_end() {
            self.current_token = None;
            return Err(ScanError::newFromStr("end of input", true, false));
        }
        let c = self.peek_char();
        match c {
            '(' => {
                self.accept_single(TokenKind::LeftParen);
                Ok(())
            },
            ')' => {
                self.accept_single(TokenKind::RightParen);
                Ok(())
            },
            '\'' => {
                self.accept_single(TokenKind::Apostrophe);
                Ok(())
            },
            '+' => {
                self.accept_single(TokenKind::Add);
                Ok(())
            },
            '-' => {
                self.accept_single(TokenKind::Sub);
                Ok(())
            },
            '*' => {
                self.accept_single(TokenKind::Mult);
                Ok(())
            },
            '/' => {
                self.accept_single(TokenKind::Div);
                Ok(())
            },
            '=' => {
                self.accept_single(TokenKind::Eq);
                Ok(())
            },
            '"' => self.begin_string(),
            _ => {
                let u = c as u32;
                if (65 <= u && u <= 90) || (97 <= u && u <= 122) {
                    self.begin_symbol()
                } else if 48 <= u && u <= 57 {
                    self.begin_number()
                } else {
                    self.current_token = None;
                    Err(unexpected_char_error(c))
                }
            },
        }
    }

    /// A copy of the most recently accepted token, or `None` if no
    /// token has been accepted yet or the last attempt failed.
    pub fn get_token(&self) -> (r: Option<Token>)
        ensures
            match r {
                Some(t) => self.current() == Some(t@),
                None => self.current() is None,
            },
    {
        match &self.current_token {
            Some(t) => Some(t.clone()),
            None => None,
        }
    }

    /// Skip whitespace, then accept exactly one token, or report the
    /// end of the input or a lexical fault.
    pub fn scan_next_token(&mut self) -> (r: Result<(), ScanError>)
        requires
            old(self).wf(),
        ensures
            final(self).wf(),
            final(self).text_model() == old(self).text_model(),
            scan_next_token_post(*old(self), *final(self), r),
    {
        proof {
            lemma_skip_ws_bounds(self.text@, self.position as int);
            lemma_skip_ws_idempotent(self.text@, self.position as int);
        }
        self.skip_white_spaces();
        self.mark_current();
        let r = self.try_look_ahead_and_accept();
        proof {
            lemma_scan_align(old(self).text_model(), old(self).pos());
        }
        r
    }
}

/// How one call of [`StringScanner::scan_next_token`] relates the new
/// state and result to the old state, case by case over [`scan_step`].
pub open spec fn scan_next_token_post(
    pre: StringScanner,
    post: StringScanner,
    r: Result<(), ScanError>,
) -> bool {
    match scan_step(pre.text_model(), pre.pos()) {
        ScanStep::Accepted { kind, start, end, next } => {
            &&& r is Ok
            &&& post.pos() == next
            &&& post.current() == Some(
                TokenModel { kind, lexeme: pre.text_model().subrange(start, end) },
            )
        },
        ScanStep::EndOfInput => {
            &&& r is Err
            &&& r->Err_0.spec_is_end_of_input()
            &&& !r->Err_0.spec_is_error()
            &&& r->Err_0.msg_view() == "end of input"@
            &&& post.pos() == pre.text_model().len()
            &&& post.current() is None
        },
        ScanStep::UnexpectedChar { at } => {
            &&& r is Err
            &&& !r->Err_0.spec_is_end_of_input()
            &&& r->Err_0.spec_is_error()
            &&& r->Err_0.msg_view() == unexpected_char_msg(pre.text_model()[at])
            &&& post.pos() == at
            &&& post.current() is None
        },
        ScanStep::UnterminatedString { at } => {
            &&& r is Err
            &&& !r->Err_0.spec_is_end_of_input()
            &&& r->Err_0.spec_is_error()
            &&& r->Err_0.msg_view() == "unterminated string literal"@
            &&& post.pos() == at
            &&& post.current() is None
        },
    }
}

/// Law: scanning is insensitive to leading whitespace — the step
/// taken from a position and from the same position with its
/// whitespace run skipped are one and the same.
pub proof fn lemma_scan_align(text: Seq<char>, pos: int)
    requires
        0 <= pos <= text.len(),
    ensures
        scan_step(text, skip_ws(text, pos)) == scan_step(text, pos),
{
    lemma_skip_ws_bounds(text, pos);
    lemma_skip_ws_idempotent(text, pos);
}

impl Scanner for StringScanner {
    fn get_token(&self) -> (r: Option<Token>)
        ensures
            match r {
                Some(t) => self.current() == Some(t@),
                None => self.current() is None,
            },
    {
        StringScanner::get_token(self)
    }

    fn next(&mut self) -> (r: Result<(), ScanError>)
        ensures
            old(self).wf() ==> final(self).wf(),
            old(self).wf() ==> final(self).text_model() == old(self).text_model(),
            old(self).wf() ==> scan_next_token_post(*old(self), *final(self), r),
    {
        if self.position <= self.length && self.length == self.text.len() && self.marker
            <= self.length {
            self.scan_next_token()
        } else {
            self.current_token = None;
            Err(ScanError::newFromStr("scanner state corrupted", false, true))
        }
    }
}

} // verus!
