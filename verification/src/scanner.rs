//! Lexical scanning: character stream to spanned token stream.
//!
//! The contract of every scanning function is stated against the spec-level
//! model `spec_scan`, which maps a character sequence to the token sequence
//! it denotes, or to the first scanning error. Each token's source span is
//! pinned by `spec_lexeme_spans` (the lexeme's bounds) and `spec_line_at`
//! (one more than the newlines before it).

use crate::ast::{Position, Spanned};
use crate::numerics::{decimal_bits, decimal_bits_of};
use vstd::prelude::*;

verus! {

/// Whether the Unicode `Alphabetic` property holds of this character.
pub uninterp spec fn is_alphabetic_of(c: char) -> bool;

/// Whether this character is numeric in the Unicode sense.
pub uninterp spec fn is_numeric_of(c: char) -> bool;

/// Whether this character is whitespace in the Unicode sense.
pub uninterp spec fn is_whitespace_of(c: char) -> bool;

/// Relies on char::is_alphabetic: the result depends on the character
/// alone, and holds only of characters with the Unicode Alphabetic
/// property, which the newline control character lacks.
#[verifier::external_body]
fn char_is_alphabetic(c: char) -> (r: bool)
    ensures
        r == is_alphabetic_of(c),
        r ==> c != '\n',
{
    c.is_alphabetic()
}

/// Relies on char::is_numeric: the result depends on the character alone,
/// and holds only of characters in the Unicode number categories, which the
/// newline control character is not.
#[verifier::external_body]
fn char_is_numeric(c: char) -> (r: bool)
    ensures
        r == is_numeric_of(c),
        r ==> c != '\n',
{
    c.is_numeric()
}

/// Relies on char::is_whitespace: the result depends on the character alone.
#[verifier::external_body]
fn char_is_whitespace(c: char) -> (r: bool)
    ensures
        r == is_whitespace_of(c),
{
    c.is_whitespace()
}

/// Relies on char::is_alphanumeric, documented as alphabetic-or-numeric;
/// the newline control character is neither.
#[verifier::external_body]
fn char_is_alphanumeric(c: char) -> (r: bool)
    ensures
        r == (is_alphabetic_of(c) || is_numeric_of(c)),
        r ==> c != '\n',
{
    c.is_alphanumeric()
}

/// A token of the shading language.
#[derive(Debug, Clone)]
pub enum Token {
    Out,
    In,
    Float,
    LeftParen,
    RightParen,
    LeftBrace,
    RightBrace,
    Equals,
    Comma,
    Plus,
    Minus,
    Star,
    Slash,
    Void,
    Return,
    Identifier(crate::ast::Ident),
    FloatLiteral(u32),
    IntegerLiteral(i64),
}

/// View of a token: the identifier abstracted to its characters.
pub enum TokenV {
    Out,
    In,
    Float,
    LeftParen,
    RightParen,
    LeftBrace,
    RightBrace,
    Equals,
    Comma,
    Plus,
    Minus,
    Star,
    Slash,
    Void,
    Return,
    Identifier(Seq<char>),
    FloatLiteral(u32),
    IntegerLiteral(i64),
}

impl View for Token {
    type V = TokenV;

    open spec fn view(&self) -> TokenV {
        match self {
            Token::Out => TokenV::Out,
            Token::In => TokenV::In,
            Token::Float => TokenV::Float,
            Token::LeftParen => TokenV::LeftParen,
            Token::RightParen => TokenV::RightParen,
            Token::LeftBrace => TokenV::LeftBrace,
            Token::RightBrace => TokenV::RightBrace,
            Token::Equals => TokenV::Equals,
            Token::Comma => TokenV::Comma,
            Token::Plus => TokenV::Plus,
            Token::Minus => TokenV::Minus,
            Token::Star => TokenV::Star,
            Token::Slash => TokenV::Slash,
            Token::Void => TokenV::Void,
            Token::Return => TokenV::Return,
            Token::Identifier(s) => TokenV::Identifier(s@),
            Token::FloatLiteral(b) => TokenV::FloatLiteral(*b),
            Token::IntegerLiteral(v) => TokenV::IntegerLiteral(*v),
        }
    }
}

/// What one call of `scan_token` produced.
#[derive(Debug)]
pub enum ScanningProduct {
    Skip,
    Finished,
    Token(Spanned<Token>),
}

/// A scanning failure, with the span it was noticed at where one exists.
/// Tokens complete at the end of the input, so of this taxonomy only the
/// unexpected-character and invalid-literal failures currently arise.
#[derive(Debug)]
pub enum ScanningError {
    UnexpectedCharacter(Spanned<char>),
    InvalidLiteral(Spanned<()>),
    UnexpectedEndOfFile,
}

/// View of a scanning error, spans dropped.
pub enum ScanningErrorV {
    UnexpectedCharacter(char),
    InvalidLiteral,
    UnexpectedEndOfFile,
}

impl View for ScanningError {
    type V = ScanningErrorV;

    open spec fn view(&self) -> ScanningErrorV {
        match self {
            ScanningError::UnexpectedCharacter(s) => ScanningErrorV::UnexpectedCharacter(s.item),
            ScanningError::InvalidLiteral(_) => ScanningErrorV::InvalidLiteral,
            ScanningError::UnexpectedEndOfFile => ScanningErrorV::UnexpectedEndOfFile,
        }
    }
}

/// Case-insensitive match of one character against a lower-case ASCII letter.
pub open spec fn ci_eq_spec(c: char, k: char) -> bool {
    c == k || ('A' <= c && c <= 'Z' && c as u32 + 32 == k as u32)
}

/// Case-insensitive match of a word against a lower-case ASCII keyword.
pub open spec fn matches_kw(w: Seq<char>, kw: Seq<char>) -> bool {
    w.len() == kw.len() && forall|j: int| 0 <= j < w.len() ==> ci_eq_spec(w[j], kw[j])
}

/// The keyword token a word denotes, if any. Keyword matching is
/// case-insensitive against a fixed table.
pub open spec fn keyword_of(w: Seq<char>) -> Option<TokenV> {
    if matches_kw(w, seq!['o', 'u', 't']) {
        Some(TokenV::Out)
    } else if matches_kw(w, seq!['i', 'n']) {
        Some(TokenV::In)
    } else if matches_kw(w, seq!['f', 'l', 'o', 'a', 't']) {
        Some(TokenV::Float)
    } else if matches_kw(w, seq!['v', 'o', 'i', 'd']) {
        Some(TokenV::Void)
    } else if matches_kw(w, seq!['r', 'e', 't', 'u', 'r', 'n']) {
        Some(TokenV::Return)
    } else {
        None
    }
}

/// Whether a character may continue an identifier.
pub open spec fn is_ident_char(c: char) -> bool {
    is_alphabetic_of(c) || is_numeric_of(c) || c == '_'
}

/// The index just past the identifier run that starts at `i`.
pub open spec fn ident_end(s: Seq<char>, i: int) -> int
    decreases s.len() - i,
{
    if i < 0 || i >= s.len() {
        i
    } else if is_ident_char(s[i]) {
        ident_end(s, i + 1)
    } else {
        i
    }
}

/// The index just past the numeric run that starts at `i`.
pub open spec fn digits_end(s: Seq<char>, i: int) -> int
    decreases s.len() - i,
{
    if i < 0 || i >= s.len() {
        i
    } else if is_numeric_of(s[i]) {
        digits_end(s, i + 1)
    } else {
        i
    }
}

pub proof fn lemma_ident_end_bounds(s: Seq<char>, i: int)
    requires
        0 <= i <= s.len(),
    ensures
        i <= ident_end(s, i) <= s.len(),
    decreases s.len() - i,
{
    if i < s.len() && is_ident_char(s[i]) {
        lemma_ident_end_bounds(s, i + 1);
    }
}

pub proof fn lemma_digits_end_bounds(s: Seq<char>, i: int)
    requires
        0 <= i <= s.len(),
    ensures
        i <= digits_end(s, i) <= s.len(),
    decreases s.len() - i,
{
    if i < s.len() && is_numeric_of(s[i]) {
        lemma_digits_end_bounds(s, i + 1);
    }
}

/// The integer value of a digit sequence, most significant first.
pub open spec fn digits_val(w: Seq<char>) -> int
    decreases w.len(),
{
    if w.len() == 0 {
        0
    } else {
        digits_val(w.drop_last()) * 10 + (w.last() as int - '0' as int)
    }
}

/// Whether every character of the word is an ASCII decimal digit.
pub open spec fn all_ascii_digits(w: Seq<char>) -> bool {
    forall|j: int| 0 <= j < w.len() ==> '0' <= w[j] && w[j] <= '9'
}

/// The 64-bit integer a digit run denotes, or `None` when a character is not
/// an ASCII digit or the value does not fit.
pub open spec fn int_of_digits(w: Seq<char>) -> Option<i64> {
    if w.len() > 0 && all_ascii_digits(w) && digits_val(w) <= i64::MAX {
        Some(digits_val(w) as i64)
    } else {
        None
    }
}

/// What the scanner does at position `i`: skip a character, finish, emit a
/// token and move on, or fail.
pub enum ScanStep {
    SkipTo(int),
    Fin,
    Tok(TokenV, int),
    Fail(ScanningErrorV),
}

/// The identifier-or-keyword token starting at the character index `i0`.
/// A run that reaches the end of the input completes its token there.
pub open spec fn spec_scan_word(s: Seq<char>, i0: int) -> ScanStep {
    let j = ident_end(s, i0 + 1);
    let w = s.subrange(i0, j);
    match keyword_of(w) {
        Some(k) => ScanStep::Tok(k, j),
        None => ScanStep::Tok(TokenV::Identifier(w), j),
    }
}

/// The numeric-literal token starting at the character index `i0`. A digit
/// run ended by the end of the input is a complete literal; whether the
/// accumulated text denotes a number is for the parse to decide.
pub open spec fn spec_scan_number(s: Seq<char>, i0: int) -> ScanStep {
    let j = digits_end(s, i0 + 1);
    if j < s.len() && s[j] == '.' {
        let k = digits_end(s, j + 1);
        match decimal_bits_of(s.subrange(i0, k)) {
            Some(b) => ScanStep::Tok(TokenV::FloatLiteral(b), k),
            None => ScanStep::Fail(ScanningErrorV::InvalidLiteral),
        }
    } else {
        match int_of_digits(s.subrange(i0, j)) {
            Some(v) => ScanStep::Tok(TokenV::IntegerLiteral(v), j),
            None => ScanStep::Fail(ScanningErrorV::InvalidLiteral),
        }
    }
}

/// One scanning step at position `i`.
pub open spec fn spec_step(s: Seq<char>, i: int) -> ScanStep {
    if i >= s.len() {
        ScanStep::Fin
    } else {
        let c = s[i];
        if c == '(' {
            ScanStep::Tok(TokenV::LeftParen, i + 1)
        } else if c == ')' {
            ScanStep::Tok(TokenV::RightParen, i + 1)
        } else if c == '{' {
            ScanStep::Tok(TokenV::LeftBrace, i + 1)
        } else if c == '}' {
            ScanStep::Tok(TokenV::RightBrace, i + 1)
        } else if c == '=' {
            ScanStep::Tok(TokenV::Equals, i + 1)
        } else if c == ',' {
            ScanStep::Tok(TokenV::Comma, i + 1)
        } else if c == '-' {
            ScanStep::Tok(TokenV::Minus, i + 1)
        } else if c == '+' {
            ScanStep::Tok(TokenV::Plus, i + 1)
        } else if c == '/' {
            ScanStep::Tok(TokenV::Slash, i + 1)
        } else if c == '*' {
            ScanStep::Tok(TokenV::Star, i + 1)
        } else if c == '\n' {
            ScanStep::SkipTo(i + 1)
        } else if is_whitespace_of(c) {
            ScanStep::SkipTo(i + 1)
        } else if is_alphabetic_of(c) {
            spec_scan_word(s, i)
        } else if is_numeric_of(c) {
            spec_scan_number(s, i)
        } else {
            ScanStep::Fail(ScanningErrorV::UnexpectedCharacter(c))
        }
    }
}

/// Where the step at `i` leaves the scanner. Every step that continues moves
/// strictly forward.
pub proof fn lemma_step_advances(s: Seq<char>, i: int)
    requires
        0 <= i,
    ensures
        match spec_step(s, i) {
            ScanStep::SkipTo(j) => i < j <= s.len(),
            ScanStep::Tok(_, j) => i < j <= s.len(),
            _ => true,
        },
{
    if i < s.len() {
        lemma_ident_end_bounds(s, i + 1);
        lemma_digits_end_bounds(s, i + 1);
        if digits_end(s, i + 1) < s.len() {
            lemma_digits_end_bounds(s, digits_end(s, i + 1) + 1);
        }
    }
}

/// The token sequence the input denotes from position `i` on, or the first
/// scanning error.
pub open spec fn spec_scan(s: Seq<char>, i: int) -> Result<Seq<TokenV>, ScanningErrorV>
    decreases s.len() - i,
        when 0 <= i
    via spec_scan_dec
{
    match spec_step(s, i) {
        ScanStep::Fin => Ok(Seq::empty()),
        ScanStep::SkipTo(j) => spec_scan(s, j),
        ScanStep::Tok(t, j) => match spec_scan(s, j) {
            Ok(ts) => Ok(seq![t] + ts),
            Err(e) => Err(e),
        },
        ScanStep::Fail(e) => Err(e),
    }
}

#[via_fn]
proof fn spec_scan_dec(s: Seq<char>, i: int) {
    lemma_step_advances(s, i);
}

/// The source line of position `i`: one more than the number of newline
/// characters strictly before it.
pub open spec fn spec_line_at(s: Seq<char>, i: int) -> int
    decreases i,
{
    if i <= 0 || i > s.len() {
        1
    } else {
        spec_line_at(s, i - 1) + if s[i - 1] == '\n' {
            1int
        } else {
            0int
        }
    }
}

/// A position's line is at most one more than the position itself.
pub proof fn lemma_line_at_bounds(s: Seq<char>, i: int)
    requires
        0 <= i <= s.len(),
    ensures
        1 <= spec_line_at(s, i) <= i + 1,
    decreases i,
{
    if i > 0 {
        lemma_line_at_bounds(s, i - 1);
    }
}

/// Passing a character that is not a newline stays on the same line.
pub proof fn lemma_line_at_step(s: Seq<char>, i: int)
    requires
        0 <= i < s.len(),
        s[i] != '\n',
    ensures
        spec_line_at(s, i + 1) == spec_line_at(s, i),
{
}

/// The lexeme bounds of each token the input denotes from position `i` on:
/// the start index and the index just past the last character, one pair per
/// emitted token, in order.
pub open spec fn spec_lexeme_spans(s: Seq<char>, i: int) -> Seq<(int, int)>
    decreases s.len() - i,
        when 0 <= i
    via spec_lexeme_spans_dec
{
    match spec_step(s, i) {
        ScanStep::Fin => Seq::empty(),
        ScanStep::SkipTo(j) => spec_lexeme_spans(s, j),
        ScanStep::Tok(t, j) => seq![(i, j)] + spec_lexeme_spans(s, j),
        ScanStep::Fail(e) => Seq::empty(),
    }
}

#[via_fn]
proof fn spec_lexeme_spans_dec(s: Seq<char>, i: int) {
    lemma_step_advances(s, i);
}

/// Every lexeme's bounds lie within the input, in order.
pub proof fn lemma_lexeme_spans_bounds(s: Seq<char>, i: int)
    requires
        0 <= i,
    ensures
        forall|k: int|
            0 <= k < spec_lexeme_spans(s, i).len() ==> i <= (#[trigger] spec_lexeme_spans(s, i)[
                k
            ]).0 < spec_lexeme_spans(s, i)[k].1 <= s.len(),
    decreases s.len() - i,
{
    lemma_step_advances(s, i);
    match spec_step(s, i) {
        ScanStep::SkipTo(j) => {
            lemma_lexeme_spans_bounds(s, j);
            assert forall|k: int| 0 <= k < spec_lexeme_spans(s, i).len() implies i <= (
            #[trigger] spec_lexeme_spans(s, i)[k]).0 < spec_lexeme_spans(s, i)[k].1
                <= s.len() by {
                assert(spec_lexeme_spans(s, i)[k] == spec_lexeme_spans(s, j)[k]);
            }
        },
        ScanStep::Tok(t, j) => {
            lemma_lexeme_spans_bounds(s, j);
            assert forall|k: int| 0 <= k < spec_lexeme_spans(s, i).len() implies i <= (
            #[trigger] spec_lexeme_spans(s, i)[k]).0 < spec_lexeme_spans(s, i)[k].1
                <= s.len() by {
                if k >= 1 {
                    assert(spec_lexeme_spans(s, i)[k] == spec_lexeme_spans(s, j)[k - 1]);
                } else {
                    assert(spec_lexeme_spans(s, i)[0] == (i, j));
                }
            }
        },
        _ => (),
    }
}

/// The scanner: a character buffer, the index of the next character, and the
/// line and offset counters used for spans.
pub struct Scanner {
    pub input: Vec<char>,
    pub pos: usize,
    pub line: u32,
    pub offset: u32,
}

impl Scanner {
    /// The position stays within the input, which itself is small enough
    /// that no span arithmetic can overflow.
    pub open spec fn wf(&self) -> bool {
        self.pos <= self.input@.len() && self.input@.len() < 0x2000_0000 && self.pos
            <= self.offset
    }

    /// Whether the span offset agrees with the position. Every read at the
    /// end of the input still advances the offset, so the two drift apart
    /// only once scanning is past the last character.
    pub open spec fn synced(&self) -> bool {
        self.offset == self.pos
    }

    /// Whether the line counter names the line of the current position.
    pub open spec fn lines_ok(&self) -> bool {
        self.line as int == spec_line_at(self.input@, self.pos as int)
    }

    pub fn new(input: Vec<char>) -> (r: Scanner)
        requires
            input@.len() < 0x2000_0000,
        ensures
            r.wf(),
            r.synced(),
            r.lines_ok(),
            r.input@ == input@,
            r.pos == 0,
    {
        Scanner { input, line: 1, offset: 0, pos: 0 }
    }

    /// The next character, if any; consumes it. The offset advances by one
    /// on every call, a failed read at the end of the input included.
    pub fn advance(&mut self) -> (r: Option<char>)
        requires
            old(self).wf(),
            old(self).offset < 0xFFFF_FFFFu32,
        ensures
            final(self).wf(),
            final(self).input@ == old(self).input@,
            final(self).line == old(self).line,
            final(self).offset == old(self).offset + 1,
            if old(self).pos < old(self).input@.len() {
                r == Some(old(self).input@[old(self).pos as int]) && final(self).pos == old(
                    self,
                ).pos + 1
            } else {
                r is None && final(self).pos == old(self).pos
            },
    {
        self.offset = self.offset + 1;
        if self.pos < self.input.len() {
            let c = self.input[self.pos];
            self.pos = self.pos + 1;
            Some(c)
        } else {
            None
        }
    }

    /// The next character, if any, without consuming it.
    pub fn peek(&mut self) -> (r: Option<char>)
        requires
            old(self).wf(),
        ensures
            *final(self) == *old(self),
            if old(self).pos < old(self).input@.len() {
                r == Some(old(self).input@[old(self).pos as int])
            } else {
                r is None
            },
    {
        if self.pos < self.input.len() {
            Some(self.input[self.pos])
        } else {
            None
        }
    }

    /// The current source position.
    pub fn position(&self) -> (r: Position)
        ensures
            r.line == self.line,
            r.offset == Some(self.offset),
    {
        Position { line: self.line, offset: Some(self.offset) }
    }

    /// The keyword token this word denotes, if any; matching is
    /// case-insensitive.
    pub fn keyword(&self, what: &Vec<char>) -> (r: Option<Token>)
        ensures
            match r {
                Some(t) => keyword_of(what@) == Some(t@),
                None => keyword_of(what@) is None,
            },
    {
        let out_kw = vec!['o', 'u', 't'];
        let in_kw = vec!['i', 'n'];
        let float_kw = vec!['f', 'l', 'o', 'a', 't'];
        let void_kw = vec!['v', 'o', 'i', 'd'];
        let return_kw = vec!['r', 'e', 't', 'u', 'r', 'n'];
        if ci_word_eq(what, &out_kw) {
            Some(Token::Out)
        } else if ci_word_eq(what, &in_kw) {
            Some(Token::In)
        } else if ci_word_eq(what, &float_kw) {
            Some(Token::Float)
        } else if ci_word_eq(what, &void_kw) {
            Some(Token::Void)
        } else if ci_word_eq(what, &return_kw) {
            Some(Token::Return)
        } else {
            None
        }
    }
}

/// Case-insensitive comparison of a word against a lower-case keyword.
#[verifier::loop_isolation(false)]
fn ci_word_eq(w: &Vec<char>, kw: &Vec<char>) -> (r: bool)
    ensures
        r == matches_kw(w@, kw@),
{
    if w.len() != kw.len() {
        return false;
    }
    let n = w.len();
    for j in 0..n
        invariant
            n == w@.len() == kw@.len(),
            forall|t: int| 0 <= t < j ==> ci_eq_spec(w@[t], kw@[t]),
    {
        let c = w[j];
        let k = kw[j];
        let ci = c == k || ('A' <= c && c <= 'Z' && (c as u32) + 32 == (k as u32));
        if !ci {
            proof {
                assert(!ci_eq_spec(w@[j as int], kw@[j as int]));
            }
            return false;
        }
        proof {
            assert(ci_eq_spec(w@[j as int], kw@[j as int]));
        }
    }
    true
}

/// Relies on String's FromIterator impl, which collects the characters in
/// order.
#[verifier::external_body]
pub fn chars_to_string(v: &Vec<char>) -> (r: String)
    ensures
        r@ == v@,
{
    v.iter().collect()
}

proof fn lemma_digits_val_nonneg(w: Seq<char>)
    requires
        all_ascii_digits(w),
    ensures
        digits_val(w) >= 0,
    decreases w.len(),
{
    if w.len() > 0 {
        assert(all_ascii_digits(w.drop_last()));
        lemma_digits_val_nonneg(w.drop_last());
    }
}

/// Along an all-digit word, the value of a prefix never exceeds the value of
/// the word.
proof fn lemma_digits_val_mono(w: Seq<char>, i: int)
    requires
        all_ascii_digits(w),
        0 <= i <= w.len(),
    ensures
        digits_val(w.subrange(0, i)) <= digits_val(w),
    decreases w.len() - i,
{
    if i == w.len() {
        assert(w.subrange(0, i) =~= w);
    } else {
        let v = w.subrange(0, i + 1);
        assert(v.drop_last() =~= w.subrange(0, i));
        lemma_digits_val_nonneg(w.subrange(0, i));
        assert(digits_val(v) == digits_val(w.subrange(0, i)) * 10 + (v.last() as int
            - '0' as int));
        lemma_digits_val_mono(w, i + 1);
    }
}

/// Parses a run of characters as a 64-bit integer: the value when every
/// character is an ASCII digit and the result fits, `None` otherwise.
#[verifier::loop_isolation(false)]
fn parse_int_digits(text: &Vec<char>) -> (r: Option<i64>)
    ensures
        r == int_of_digits(text@),
{
    let n = text.len();
    if n == 0 {
        return None;
    }
    let mut val: i64 = 0;
    for idx in 0..n
        invariant
            n == text@.len(),
            all_ascii_digits(text@.subrange(0, idx as int)),
            0 <= val <= i64::MAX,
            val == digits_val(text@.subrange(0, idx as int)),
    {
        let c = text[idx];
        if c < '0' || c > '9' {
            proof {
                assert(!('0' <= text@[idx as int] && text@[idx as int] <= '9'));
            }
            return None;
        }
        let d = (c as u32) - ('0' as u32);
        let di = d as i64;
        if val > (i64::MAX - di) / 10 {
            proof {
                let pre = text@.subrange(0, idx as int + 1);
                assert(pre.drop_last() =~= text@.subrange(0, idx as int));
                assert(forall|t: int|
                    0 <= t < pre.len() ==> '0' <= #[trigger] pre[t] && pre[t] <= '9');
                assert(digits_val(pre) == val * 10 + di);
                if all_ascii_digits(text@) {
                    lemma_digits_val_mono(text@, idx as int + 1);
                    assert(digits_val(text@) >= val * 10 + di > i64::MAX);
                }
            }
            return None;
        }
        val = val * 10 + di;
        proof {
            let pre = text@.subrange(0, idx as int + 1);
            assert(pre.drop_last() =~= text@.subrange(0, idx as int));
        }
    }
    proof {
        assert(text@.subrange(0, n as int) =~= text@);
    }
    Some(val)
}

/// Maps a spanned token sequence to the views of the tokens it carries.
pub open spec fn tokens_view(q: Seq<Spanned<Token>>) -> Seq<TokenV> {
    q.map_values(|st: Spanned<Token>| st.item@)
}

impl Scanner {
    /// Scans the whole input. Returns exactly the tokens that `spec_scan`
    /// assigns to the input, or the error it assigns; each token's span
    /// starts at its lexeme's first character, on the line that is one more
    /// than the number of newline characters before that lexeme, and ends
    /// just past its last character.
    #[verifier::loop_isolation(false)]
    pub fn scan_all(self) -> (r: Result<Vec<Spanned<Token>>, ScanningError>)
        requires
            self.wf(),
            self.synced(),
            self.lines_ok(),
        ensures
            match r {
                Ok(ts) => spec_scan(self.input@, self.pos as int) == Ok::<_, ScanningErrorV>(
                    tokens_view(ts@),
                ) && ts@.len() == spec_lexeme_spans(self.input@, self.pos as int).len() && forall|
                    k: int,
                |
                    0 <= k < ts@.len() ==> (#[trigger] ts@[k]).from.offset == Some(
                        spec_lexeme_spans(self.input@, self.pos as int)[k].0 as u32,
                    ) && ts@[k].from.line as int == spec_line_at(
                        self.input@,
                        spec_lexeme_spans(self.input@, self.pos as int)[k].0,
                    ) && ts@[k].to.offset == Some(
                        spec_lexeme_spans(self.input@, self.pos as int)[k].1 as u32,
                    ),
                Err(e) => spec_scan(self.input@, self.pos as int) == Err::<Seq<TokenV>, _>(e@),
            },
    {
        let ghost s0 = self.input@;
        let ghost p0 = self.pos as int;
        let ghost sp_all = spec_lexeme_spans(s0, p0);
        let mut scanner = self;
        let mut output: Vec<Spanned<Token>> = Vec::new();
        proof {
            assert(tokens_view(output@) =~= Seq::<TokenV>::empty());
            assert(sp_all.skip(0) =~= sp_all);
            lemma_lexeme_spans_bounds(s0, p0);
        }
        loop
            invariant
                scanner.wf(),
                scanner.synced(),
                scanner.lines_ok(),
                scanner.input@ == s0,
                p0 <= scanner.pos as int,
                spec_scan(s0, p0) == (match spec_scan(s0, scanner.pos as int) {
                    Ok(ts) => Ok::<_, ScanningErrorV>(tokens_view(output@) + ts),
                    Err(e) => Err::<Seq<TokenV>, _>(e),
                }),
                output@.len() <= sp_all.len(),
                spec_lexeme_spans(s0, scanner.pos as int) == sp_all.skip(output@.len() as int),
                forall|k: int|
                    0 <= k < output@.len() ==> (#[trigger] output@[k]).from.offset == Some(
                        sp_all[k].0 as u32,
                    ) && output@[k].from.line as int == spec_line_at(s0, sp_all[k].0)
                        && output@[k].to.offset == Some(sp_all[k].1 as u32),
            decreases s0.len() - scanner.pos,
        {
            let ghost pos_before = scanner.pos as int;
            let ghost line_before = scanner.line;
            match scanner.scan_token() {
                Err(e) => {
                    return Err(e);
                },
                Ok(ScanningProduct::Skip) => {
                    proof {
                        assert(spec_scan(s0, pos_before) == spec_scan(s0, scanner.pos as int));
                        assert(spec_lexeme_spans(s0, pos_before) == spec_lexeme_spans(
                            s0,
                            scanner.pos as int,
                        ));
                    }
                },
                Ok(ScanningProduct::Finished) => {
                    proof {
                        assert(spec_scan(s0, scanner.pos as int) == Ok::<_, ScanningErrorV>(
                            Seq::<TokenV>::empty(),
                        ));
                        assert(tokens_view(output@) + Seq::<TokenV>::empty() =~= tokens_view(
                            output@,
                        ));
                        assert(spec_lexeme_spans(s0, scanner.pos as int) =~= Seq::<(
                            int,
                            int,
                        )>::empty());
                        assert(sp_all.skip(output@.len() as int).len() == 0);
                        assert(output@.len() == sp_all.len());
                    }
                    return Ok(output);
                },
                Ok(ScanningProduct::Token(token)) => {
                    let ghost tv = token.item@;
                    let ghost old_out = output@;
                    output.push(token);
                    proof {
                        lemma_step_advances(s0, pos_before);
                        assert(spec_scan(s0, pos_before) == (match spec_scan(
                            s0,
                            scanner.pos as int,
                        ) {
                            Ok(ts) => Ok::<_, ScanningErrorV>(seq![tv] + ts),
                            Err(e) => Err::<Seq<TokenV>, _>(e),
                        }));
                        assert(tokens_view(output@) =~= tokens_view(old_out) + seq![tv]);
                        if let Ok(ts) = spec_scan(s0, scanner.pos as int) {
                            assert(tokens_view(old_out) + (seq![tv] + ts) =~= tokens_view(
                                output@,
                            ) + ts);
                        }
                        let n = old_out.len() as int;
                        assert(spec_lexeme_spans(s0, pos_before) == seq![
                            (pos_before, scanner.pos as int),
                        ] + spec_lexeme_spans(s0, scanner.pos as int));
                        assert(sp_all.skip(n)[0] == sp_all[n]);
                        assert(sp_all[n] == (pos_before, scanner.pos as int));
                        let rest = spec_lexeme_spans(s0, scanner.pos as int);
                        assert(forall|t: int|
                            0 <= t < rest.len() ==> #[trigger] rest[t] == sp_all.skip(n)[t + 1]);
                        assert(rest =~= sp_all.skip(n + 1));
                        assert(output@[n] == token);
                        assert(forall|k: int|
                            0 <= k < n ==> (#[trigger] output@[k]) == old_out[k]);
                    }
                },
            }
        }
    }

    /// Scans one token, skip, or end-of-input, as `spec_step` describes at
    /// the current position. An emitted token's span starts at the current
    /// position on the current line and ends just past its last character.
    pub fn scan_token(&mut self) -> (r: Result<ScanningProduct, ScanningError>)
        requires
            old(self).wf(),
            old(self).synced(),
            old(self).lines_ok(),
        ensures
            final(self).wf(),
            final(self).input@ == old(self).input@,
            old(self).pos <= final(self).pos,
            match spec_step(old(self).input@, old(self).pos as int) {
                ScanStep::Fin => r matches Ok(p) && p matches ScanningProduct::Finished
                    && final(self).pos == old(self).pos,
                ScanStep::SkipTo(j) => r matches Ok(p) && p matches ScanningProduct::Skip
                    && final(self).pos == j && final(self).synced() && final(self).lines_ok(),
                ScanStep::Tok(tv, j) => r matches Ok(p) && p matches ScanningProduct::Token(t)
                    && t.item@ == tv && final(self).pos == j && final(self).synced()
                    && final(self).lines_ok() && t.from.line == old(self).line
                    && t.from.offset == Some(old(self).pos as u32)
                    && t.to.offset == Some(final(self).pos as u32),
                ScanStep::Fail(e) => r matches Err(er) && er@ == e,
            },
    {
        proof {
            lemma_line_at_bounds(self.input@, self.pos as int);
        }
        let ghost i0 = self.pos as int;
        let from = self.position();
        let c = match self.advance() {
            Some(c) => c,
            None => {
                return Ok(ScanningProduct::Finished);
            },
        };
        proof {
            if self.input@[i0] != '\n' {
                lemma_line_at_step(self.input@, i0);
            }
        }

        if c == '(' {
            let to = self.position();
            Ok(ScanningProduct::Token(Spanned::new(Token::LeftParen, from, to)))
        } else if c == ')' {
            let to = self.position();
            Ok(ScanningProduct::Token(Spanned::new(Token::RightParen, from, to)))
        } else if c == '{' {
            let to = self.position();
            Ok(ScanningProduct::Token(Spanned::new(Token::LeftBrace, from, to)))
        } else if c == '}' {
            let to = self.position();
            Ok(ScanningProduct::Token(Spanned::new(Token::RightBrace, from, to)))
        } else if c == '=' {
            let to = self.position();
            Ok(ScanningProduct::Token(Spanned::new(Token::Equals, from, to)))
        } else if c == ',' {
            let to = self.position();
            Ok(ScanningProduct::Token(Spanned::new(Token::Comma, from, to)))
        } else if c == '-' {
            let to = self.position();
            Ok(ScanningProduct::Token(Spanned::new(Token::Minus, from, to)))
        } else if c == '+' {
            let to = self.position();
            Ok(ScanningProduct::Token(Spanned::new(Token::Plus, from, to)))
        } else if c == '/' {
            let to = self.position();
            Ok(ScanningProduct::Token(Spanned::new(Token::Slash, from, to)))
        } else if c == '*' {
            let to = self.position();
            Ok(ScanningProduct::Token(Spanned::new(Token::Star, from, to)))
        } else if c == '\n' {
            self.line = self.line + 1;
            Ok(ScanningProduct::Skip)
        } else if char_is_whitespace(c) {
            Ok(ScanningProduct::Skip)
        } else if char_is_alphabetic(c) {
            self.scan_identifier(c, from)
        } else if char_is_numeric(c) {
            self.scan_numerics(c, from)
        } else {
            let to = self.position();
            Err(ScanningError::UnexpectedCharacter(Spanned::new(c, from, to)))
        }
    }

    /// Scans the identifier or keyword whose first character was just
    /// consumed. The emitted token keeps the span handed in as `from` and
    /// ends just past the last consumed character.
    #[verifier::loop_isolation(false)]
    pub fn scan_identifier(&mut self, begin: char, from: Position) -> (r: Result<
        ScanningProduct,
        ScanningError,
    >)
        requires
            old(self).wf(),
            old(self).synced(),
            old(self).lines_ok(),
            old(self).pos >= 1,
            begin == old(self).input@[old(self).pos - 1],
        ensures
            final(self).wf(),
            final(self).synced(),
            final(self).lines_ok(),
            final(self).line == old(self).line,
            final(self).input@ == old(self).input@,
            old(self).pos <= final(self).pos,
            match spec_scan_word(old(self).input@, old(self).pos - 1) {
                ScanStep::Tok(tv, j) => r matches Ok(p) && p matches ScanningProduct::Token(t)
                    && t.item@ == tv && final(self).pos == j && t.from == from && t.to.offset
                    == Some(final(self).pos as u32),
                ScanStep::Fail(e) => r matches Err(er) && er@ == e,
                _ => false,
            },
    {
        let ghost s = self.input@;
        let ghost i0 = self.pos - 1;
        let mut ident: Vec<char> = Vec::new();
        ident.push(begin);

        loop
            invariant
                self.wf(),
                self.synced(),
                self.lines_ok(),
                self.line == old(self).line,
                self.input@ == s,
                i0 + 1 <= self.pos as int <= s.len(),
                ident_end(s, i0 + 1) == ident_end(s, self.pos as int),
                ident@ == seq![begin] + s.subrange(i0 + 1, self.pos as int),
            decreases s.len() - self.pos,
        {
            match self.peek() {
                Some(c) => {
                    if char_is_alphanumeric(c) || c == '_' {
                        let ghost p0 = self.pos as int;
                        let a = self.advance();
                        ident.push(a.unwrap());
                        proof {
                            lemma_line_at_step(s, p0);
                            assert(ident@ =~= seq![begin] + s.subrange(i0 + 1, self.pos as int));
                        }
                    } else {
                        break;
                    }
                },
                None => {
                    break;
                },
            }
        }
        proof {
            assert(ident_end(s, self.pos as int) == self.pos as int);
            assert(ident@ =~= s.subrange(i0, self.pos as int));
        }
        let to = self.position();

        match self.keyword(&ident) {
            Some(k) => Ok(ScanningProduct::Token(Spanned::new(k, from, to))),
            None => {
                let word = chars_to_string(&ident);
                Ok(ScanningProduct::Token(Spanned::new(Token::Identifier(word), from, to)))
            },
        }
    }

    /// Scans the numeric literal whose first character was just consumed.
    /// The emitted token keeps the span handed in as `from` and ends just
    /// past the last consumed character.
    #[verifier::loop_isolation(false)]
    pub fn scan_numerics(&mut self, begin: char, from: Position) -> (r: Result<
        ScanningProduct,
        ScanningError,
    >)
        requires
            old(self).wf(),
            old(self).synced(),
            old(self).lines_ok(),
            old(self).pos >= 1,
            begin == old(self).input@[old(self).pos - 1],
        ensures
            final(self).wf(),
            final(self).synced(),
            final(self).lines_ok(),
            final(self).line == old(self).line,
            final(self).input@ == old(self).input@,
            old(self).pos <= final(self).pos,
            match spec_scan_number(old(self).input@, old(self).pos - 1) {
                ScanStep::Tok(tv, j) => r matches Ok(p) && p matches ScanningProduct::Token(t)
                    && t.item@ == tv && final(self).pos == j && t.from == from && t.to.offset
                    == Some(final(self).pos as u32),
                ScanStep::Fail(e) => r matches Err(er) && er@ == e,
                _ => false,
            },
    {
        let ghost s = self.input@;
        let ghost i0 = self.pos - 1;
        let mut text: Vec<char> = Vec::new();
        text.push(begin);

        loop
            invariant
                self.wf(),
                self.synced(),
                self.lines_ok(),
                self.line == old(self).line,
                self.input@ == s,
                i0 + 1 <= self.pos as int <= s.len(),
                digits_end(s, i0 + 1) == digits_end(s, self.pos as int),
                text@ == seq![begin] + s.subrange(i0 + 1, self.pos as int),
            decreases s.len() - self.pos,
        {
            match self.peek() {
                Some(c) => {
                    if char_is_numeric(c) {
                        let ghost p0 = self.pos as int;
                        let a = self.advance();
                        text.push(a.unwrap());
                        proof {
                            lemma_line_at_step(s, p0);
                            assert(text@ =~= seq![begin] + s.subrange(i0 + 1, self.pos as int));
                        }
                    } else {
                        break;
                    }
                },
                None => {
                    break;
                },
            }
        }

        let dot = match self.peek() {
            Some(c) => c == '.',
            None => false,
        };
        if dot {
            let ghost pdot = self.pos as int;
            let a = self.advance();
            text.push(a.unwrap());
            let ghost j = self.pos as int;
            proof {
                lemma_line_at_step(s, pdot);
                assert(text@ =~= seq![begin] + s.subrange(i0 + 1, self.pos as int));
            }
            loop
                invariant
                    self.wf(),
                    self.synced(),
                    self.lines_ok(),
                    self.line == old(self).line,
                    self.input@ == s,
                    j <= self.pos as int <= s.len(),
                    digits_end(s, j) == digits_end(s, self.pos as int),
                    text@ == seq![begin] + s.subrange(i0 + 1, self.pos as int),
                decreases s.len() - self.pos,
            {
                match self.peek() {
                    Some(c2) => {
                        if char_is_numeric(c2) {
                            let ghost p0 = self.pos as int;
                            let a2 = self.advance();
                            text.push(a2.unwrap());
                            proof {
                                lemma_line_at_step(s, p0);
                                assert(text@ =~= seq![begin] + s.subrange(
                                    i0 + 1,
                                    self.pos as int,
                                ));
                            }
                        } else {
                            break;
                        }
                    },
                    None => {
                        break;
                    },
                }
            }
            let to = self.position();
            proof {
                assert(text@ =~= s.subrange(i0, self.pos as int));
                assert(text@.len() < 0x2000_0000);
            }
            match decimal_bits(&text) {
                Some(b) => Ok(ScanningProduct::Token(
                    Spanned::new(Token::FloatLiteral(b), from, to),
                )),
                None => Err(ScanningError::InvalidLiteral(Spanned::new((), from, to))),
            }
        } else {
            let to = self.position();
            proof {
                assert(text@ =~= s.subrange(i0, self.pos as int));
            }
            match parse_int_digits(&text) {
                Some(v) => Ok(ScanningProduct::Token(
                    Spanned::new(Token::IntegerLiteral(v), from, to),
                )),
                None => Err(ScanningError::InvalidLiteral(Spanned::new((), from, to))),
            }
        }
    }
}


} // verus!
