//! Parsing: token stream to syntax tree.
//!
//! Expressions are parsed by precedence climbing with explicit (left, right)
//! binding-power pairs per operator; declarations and statements by recursive
//! descent. Every parsing function is specified against the spec-level model
//! `spec_parse_program` / `spec_parse_expr`, which maps a token sequence to
//! the tree it denotes, or to the first parsing error. Failure is immediate
//! and non-recovering.

use crate::ast::{
    exprs_view, lemma_exprs_view_push, BinaryOperator, Expr, ExprV, FunctionDeclaration,
    FunctionDeclarationV, Ident, InParameterDeclaration, Literal, OutParameterDeclaration,
    ParameterV, Program, ProgramV, Spanned, Statement, StatementV, Symbol, TypeKind, TypeKindV,
    UnaryOperator,
};
use crate::scanner::{spec_scan, Scanner, ScanningError, ScanningErrorV};
use vstd::string::StrSliceExecFns;
use crate::scanner::{tokens_view, Token, TokenV};
use vstd::prelude::*;

verus! {

/// A parsing failure: an unexpected token, or input that ended too early.
#[derive(Debug)]
pub enum ParsingError {
    UnexpectedToken(Spanned<Token>),
    UnexpectedEndOfInput,
}

/// View of a parsing error, spans dropped.
pub enum ParsingErrorV {
    UnexpectedToken(TokenV),
    UnexpectedEndOfInput,
}

impl View for ParsingError {
    type V = ParsingErrorV;

    open spec fn view(&self) -> ParsingErrorV {
        match self {
            ParsingError::UnexpectedToken(t) => ParsingErrorV::UnexpectedToken(t.item@),
            ParsingError::UnexpectedEndOfInput => ParsingErrorV::UnexpectedEndOfInput,
        }
    }
}

/// A peekable cursor over the scanned tokens.
pub struct TokenSource {
    pub tokens: Vec<Spanned<Token>>,
    pub pos: usize,
}

impl TokenSource {
    /// The views of the tokens this cursor walks.
    pub open spec fn toks(&self) -> Seq<TokenV> {
        tokens_view(self.tokens@)
    }

    pub open spec fn wf(&self) -> bool {
        self.pos <= self.tokens@.len()
    }

    pub fn new(tokens: Vec<Spanned<Token>>) -> (r: TokenSource)
        ensures
            r.wf(),
            r.toks() == tokens_view(tokens@),
            r.pos == 0,
    {
        TokenSource { tokens, pos: 0 }
    }

    /// The next token, if any; consumes it.
    pub fn next(&mut self) -> (r: Option<Spanned<Token>>)
        requires
            old(self).wf(),
        ensures
            final(self).wf(),
            final(self).toks() == old(self).toks(),
            final(self).tokens@ == old(self).tokens@,
            if old(self).pos < old(self).tokens@.len() {
                r matches Some(t) && t == old(self).tokens@[old(self).pos as int] && final(self).pos == old(self).pos + 1
            } else {
                r is None && final(self).pos == old(self).pos
            },
    {
        if self.pos < self.tokens.len() {
            let st = &self.tokens[self.pos];
            let t = Spanned { item: token_clone(&st.item), from: st.from, to: st.to };
            self.pos = self.pos + 1;
            Some(t)
        } else {
            None
        }
    }

    /// The next token, if any, without consuming it.
    pub fn peek(&mut self) -> (r: Option<&Spanned<Token>>)
        requires
            old(self).wf(),
        ensures
            *final(self) == *old(self),
            if old(self).pos < old(self).tokens@.len() {
                r matches Some(t) && *t == old(self).tokens@[old(self).pos as int]
            } else {
                r is None
            },
    {
        if self.pos < self.tokens.len() {
            Some(&self.tokens[self.pos])
        } else {
            None
        }
    }

    /// The next token, or `UnexpectedEndOfInput` if there is none.
    pub fn expect_next(&mut self) -> (r: Result<Spanned<Token>, ParsingError>)
        requires
            old(self).wf(),
        ensures
            final(self).wf(),
            final(self).tokens@ == old(self).tokens@,
            if old(self).pos < old(self).tokens@.len() {
                r matches Ok(t) && t == old(self).tokens@[old(self).pos as int] && final(self).pos
                    == old(self).pos + 1
            } else {
                r matches Err(e) && e@ == ParsingErrorV::UnexpectedEndOfInput && final(self).pos
                    == old(self).pos
            },
    {
        match self.next() {
            None => Err(ParsingError::UnexpectedEndOfInput),
            Some(t) => Ok(t),
        }
    }

    /// The next token, which must equal the given one.
    pub fn expect_token(&mut self, token: Token) -> (r: Result<Spanned<Token>, ParsingError>)
        requires
            old(self).wf(),
        ensures
            final(self).wf(),
            final(self).tokens@ == old(self).tokens@,
            if old(self).pos >= old(self).tokens@.len() {
                r matches Err(e) && e@ == ParsingErrorV::UnexpectedEndOfInput && final(self).pos
                    == old(self).pos
            } else if old(self).toks()[old(self).pos as int] == token@ {
                r matches Ok(t) && t == old(self).tokens@[old(self).pos as int] && final(self).pos
                    == old(self).pos + 1
            } else {
                r matches Err(e) && e@ == ParsingErrorV::UnexpectedToken(
                    old(self).toks()[old(self).pos as int],
                ) && final(self).pos == old(self).pos + 1
            },
    {
        let t = match self.expect_next() {
            Ok(t) => t,
            Err(e) => {
                return Err(e);
            },
        };
        if token_eq(&t.item, &token) {
            Ok(t)
        } else {
            Err(ParsingError::UnexpectedToken(t))
        }
    }

    /// The next token, which must be an identifier; yields its text.
    pub fn expect_identifier(&mut self) -> (r: Result<Spanned<Ident>, ParsingError>)
        requires
            old(self).wf(),
        ensures
            final(self).wf(),
            final(self).tokens@ == old(self).tokens@,
            if old(self).pos >= old(self).tokens@.len() {
                r matches Err(e) && e@ == ParsingErrorV::UnexpectedEndOfInput && final(self).pos
                    == old(self).pos
            } else {
                match old(self).toks()[old(self).pos as int] {
                    TokenV::Identifier(name) => r matches Ok(s) && s.item@ == name && final(self).pos == old(self).pos + 1,
                    _ => r matches Err(e) && e@ == ParsingErrorV::UnexpectedToken(
                        old(self).toks()[old(self).pos as int],
                    ) && final(self).pos == old(self).pos + 1,
                }
            },
    {
        let token = match self.expect_next() {
            Ok(t) => t,
            Err(e) => {
                return Err(e);
            },
        };
        match token.item {
            Token::Identifier(s) => Ok(Spanned::new(s, token.from, token.to)),
            _ => Err(ParsingError::UnexpectedToken(token)),
        }
    }
}

/// An equal copy of a token, the identifier text cloned by content.
pub fn token_clone(t: &Token) -> (r: Token)
    ensures
        r == *t,
{
    match t {
        Token::Out => Token::Out,
        Token::In => Token::In,
        Token::Float => Token::Float,
        Token::LeftParen => Token::LeftParen,
        Token::RightParen => Token::RightParen,
        Token::LeftBrace => Token::LeftBrace,
        Token::RightBrace => Token::RightBrace,
        Token::Equals => Token::Equals,
        Token::Comma => Token::Comma,
        Token::Plus => Token::Plus,
        Token::Minus => Token::Minus,
        Token::Star => Token::Star,
        Token::Slash => Token::Slash,
        Token::Void => Token::Void,
        Token::Return => Token::Return,
        Token::Identifier(s) => Token::Identifier(s.clone()),
        Token::FloatLiteral(b) => Token::FloatLiteral(*b),
        Token::IntegerLiteral(v) => Token::IntegerLiteral(*v),
    }
}

/// Structural equality of two tokens, identifier text compared by content.
pub fn token_eq(a: &Token, b: &Token) -> (r: bool)
    ensures
        r == (a@ == b@),
{
    match a {
        Token::Out => matches!(b, Token::Out),
        Token::In => matches!(b, Token::In),
        Token::Float => matches!(b, Token::Float),
        Token::LeftParen => matches!(b, Token::LeftParen),
        Token::RightParen => matches!(b, Token::RightParen),
        Token::LeftBrace => matches!(b, Token::LeftBrace),
        Token::RightBrace => matches!(b, Token::RightBrace),
        Token::Equals => matches!(b, Token::Equals),
        Token::Comma => matches!(b, Token::Comma),
        Token::Plus => matches!(b, Token::Plus),
        Token::Minus => matches!(b, Token::Minus),
        Token::Star => matches!(b, Token::Star),
        Token::Slash => matches!(b, Token::Slash),
        Token::Void => matches!(b, Token::Void),
        Token::Return => matches!(b, Token::Return),
        Token::Identifier(x) => match b {
            Token::Identifier(y) => *x == *y,
            _ => false,
        },
        Token::FloatLiteral(x) => match b {
            Token::FloatLiteral(y) => *x == *y,
            _ => false,
        },
        Token::IntegerLiteral(x) => match b {
            Token::IntegerLiteral(y) => *x == *y,
            _ => false,
        },
    }
}

/// The type a bare type keyword denotes, if any.
pub open spec fn spec_get_typekind(t: TokenV) -> Option<TypeKindV> {
    match t {
        TokenV::Float => Some(TypeKindV::F32),
        TokenV::Void => Some(TypeKindV::Void),
        _ => None,
    }
}

pub fn get_typekind(t: &Token) -> (r: Option<TypeKind>)
    ensures
        match r {
            Some(tk) => spec_get_typekind(t@) == Some(tk@),
            None => spec_get_typekind(t@) is None,
        },
{
    match t {
        Token::Float => Some(TypeKind::F32),
        Token::Void => Some(TypeKind::Void),
        _ => None,
    }
}

/// The type the token at `i` denotes: a keyword type, or a type reference
/// for an identifier.
pub open spec fn spec_expect_typekind(toks: Seq<TokenV>, i: int) -> Result<
    (TypeKindV, int),
    ParsingErrorV,
> {
    if i >= toks.len() {
        Err(ParsingErrorV::UnexpectedEndOfInput)
    } else {
        match toks[i] {
            TokenV::Float => Ok((TypeKindV::F32, i + 1)),
            TokenV::Void => Ok((TypeKindV::Void, i + 1)),
            TokenV::Identifier(name) => Ok((TypeKindV::TypeRef(name), i + 1)),
            t => Err(ParsingErrorV::UnexpectedToken(t)),
        }
    }
}

/// Consumes one token and maps it to the type it denotes, exactly as
/// `spec_expect_typekind` describes; the result keeps the consumed token's
/// span.
pub fn expect_typekind(tokens: &mut TokenSource) -> (r: Result<Spanned<TypeKind>, ParsingError>)
    requires
        old(tokens).wf(),
    ensures
        final(tokens).wf(),
        final(tokens).tokens@ == old(tokens).tokens@,
        match spec_expect_typekind(old(tokens).toks(), old(tokens).pos as int) {
            Ok((tk, j)) => r matches Ok(s) && s.item@ == tk && final(tokens).pos == j && s.from
                == old(tokens).tokens@[old(tokens).pos as int].from && s.to == old(
                tokens,
            ).tokens@[old(tokens).pos as int].to,
            Err(e) => r matches Err(er) && er@ == e,
        },
{
    let token = match tokens.expect_next() {
        Ok(t) => t,
        Err(e) => {
            return Err(e);
        },
    };
    let from = token.from;
    let to = token.to;
    match token.item {
        Token::Float => Ok(Spanned::new(TypeKind::F32, from, to)),
        Token::Void => Ok(Spanned::new(TypeKind::Void, from, to)),
        Token::Identifier(name) => Ok(Spanned::new(TypeKind::TypeRef(name), from, to)),
        t => Err(ParsingError::UnexpectedToken(Spanned::new(t, from, to))),
    }
}

/// The infix operator a token denotes, if any.
pub open spec fn spec_get_infix_operator(t: TokenV) -> Option<BinaryOperator> {
    match t {
        TokenV::Plus => Some(BinaryOperator::Add),
        TokenV::Minus => Some(BinaryOperator::Sub),
        TokenV::Star => Some(BinaryOperator::Mul),
        TokenV::Slash => Some(BinaryOperator::Div),
        _ => None,
    }
}

pub fn get_infix_operator(t: &Token) -> (r: Option<BinaryOperator>)
    ensures
        r == spec_get_infix_operator(t@),
{
    match t {
        Token::Plus => Some(BinaryOperator::Add),
        Token::Minus => Some(BinaryOperator::Sub),
        Token::Star => Some(BinaryOperator::Mul),
        Token::Slash => Some(BinaryOperator::Div),
        _ => None,
    }
}

/// The (left, right) binding powers of an infix operator. The left power is
/// strictly below the right one, so same-precedence chains associate left.
pub open spec fn spec_infix_binding_power(op: BinaryOperator) -> (u8, u8) {
    match op {
        BinaryOperator::Add => (1u8, 2u8),
        BinaryOperator::Sub => (1u8, 2u8),
        BinaryOperator::Mul => (3u8, 4u8),
        BinaryOperator::Div => (3u8, 4u8),
    }
}

pub fn infix_binding_power(op: BinaryOperator) -> (r: (u8, u8))
    ensures
        r == spec_infix_binding_power(op),
{
    match op {
        BinaryOperator::Add => (1, 2),
        BinaryOperator::Sub => (1, 2),
        BinaryOperator::Mul => (3, 4),
        BinaryOperator::Div => (3, 4),
    }
}

/// The prefix operator a token denotes, if any.
pub open spec fn spec_get_prefix_operator(t: TokenV) -> Option<UnaryOperator> {
    match t {
        TokenV::Minus => Some(UnaryOperator::Sub),
        _ => None,
    }
}

pub fn get_prefix_operator(t: &Token) -> (r: Option<UnaryOperator>)
    ensures
        r == spec_get_prefix_operator(t@),
{
    match t {
        Token::Minus => Some(UnaryOperator::Sub),
        _ => None,
    }
}

/// The binding power of prefix minus, which binds tighter than every infix
/// operator. No other prefix operator is implemented.
pub fn prefix_binding_power(op: UnaryOperator) -> (r: ((), u8))
    requires
        op == UnaryOperator::Sub,
    ensures
        r.1 == 5u8,
{
    ((), 5)
}

/// The expression starting at `i`, parsed with the given minimum binding
/// power, and the position just past it.
pub open spec fn spec_parse_expr(toks: Seq<TokenV>, i: int, min_bp: u8) -> Result<
    (ExprV, int),
    ParsingErrorV,
>
    decreases toks.len() - i, 2int,
{
    if i >= toks.len() {
        Err(ParsingErrorV::UnexpectedEndOfInput)
    } else {
        match toks[i] {
            TokenV::FloatLiteral(b) => spec_parse_infix(
                toks,
                i + 1,
                ExprV::Literal(Literal::DecimalLiteral(b)),
                min_bp,
            ),
            TokenV::IntegerLiteral(v) => spec_parse_infix(
                toks,
                i + 1,
                ExprV::Literal(Literal::IntegerLiteral(v)),
                min_bp,
            ),
            TokenV::Identifier(name) => if i + 1 < toks.len() && toks[i + 1]
                == TokenV::LeftParen {
                if i + 2 < toks.len() && toks[i + 2] == TokenV::RightParen {
                    // The argument list is optional: `f()` is a call with no
                    // arguments.
                    spec_parse_infix(toks, i + 3, ExprV::FuncCall(name, Seq::empty()), min_bp)
                } else {
                    match spec_parse_args(toks, i + 2) {
                        Ok((args, j)) => if j <= i || j > toks.len() {
                            Err(ParsingErrorV::UnexpectedEndOfInput)
                        } else {
                            spec_parse_infix(toks, j, ExprV::FuncCall(name, args), min_bp)
                        },
                        Err(e) => Err(e),
                    }
                }
            } else {
                spec_parse_infix(toks, i + 1, ExprV::Symbol(name), min_bp)
            },
            TokenV::LeftParen => match spec_parse_expr(toks, i + 1, 0) {
                Ok((e, j)) => if j >= toks.len() {
                    Err(ParsingErrorV::UnexpectedEndOfInput)
                } else if toks[j] == TokenV::RightParen {
                    if j + 1 <= i {
                        Err(ParsingErrorV::UnexpectedEndOfInput)
                    } else {
                        spec_parse_infix(toks, j + 1, e, min_bp)
                    }
                } else {
                    Err(ParsingErrorV::UnexpectedToken(toks[j]))
                },
                Err(e) => Err(e),
            },
            TokenV::Minus => match spec_parse_expr(toks, i + 1, 5) {
                Ok((e, j)) => if j <= i || j > toks.len() {
                    Err(ParsingErrorV::UnexpectedEndOfInput)
                } else {
                    spec_parse_infix(
                        toks,
                        j,
                        ExprV::UnaryOp(UnaryOperator::Sub, Box::new(e)),
                        min_bp,
                    )
                },
                Err(e) => Err(e),
            },
            t => Err(ParsingErrorV::UnexpectedToken(t)),
        }
    }
}

/// Folds infix operators onto `lhs` while their left binding power is at
/// least `min_bp`.
pub open spec fn spec_parse_infix(toks: Seq<TokenV>, i: int, lhs: ExprV, min_bp: u8) -> Result<
    (ExprV, int),
    ParsingErrorV,
>
    decreases toks.len() - i, 1int,
{
    if i >= toks.len() {
        Ok((lhs, i))
    } else {
        match spec_get_infix_operator(toks[i]) {
            None => Ok((lhs, i)),
            Some(op) => {
                let bp = spec_infix_binding_power(op);
                if bp.0 < min_bp {
                    Ok((lhs, i))
                } else {
                    match spec_parse_expr(toks, i + 1, bp.1) {
                        Ok((rhs, j)) => if j <= i || j > toks.len() {
                            Err(ParsingErrorV::UnexpectedEndOfInput)
                        } else {
                            spec_parse_infix(
                                toks,
                                j,
                                ExprV::BinaryOp(op, Box::new(lhs), Box::new(rhs)),
                                min_bp,
                            )
                        },
                        Err(e) => Err(e),
                    }
                }
            },
        }
    }
}

/// The comma-separated, parenthesis-terminated argument list starting at
/// `i`, and the position just past the closing parenthesis.
pub open spec fn spec_parse_args(toks: Seq<TokenV>, i: int) -> Result<
    (Seq<ExprV>, int),
    ParsingErrorV,
>
    decreases toks.len() - i, 3int,
{
    match spec_parse_expr(toks, i, 0) {
        Ok((e, j)) => if j >= toks.len() {
            Err(ParsingErrorV::UnexpectedEndOfInput)
        } else if toks[j] == TokenV::RightParen {
            Ok((seq![e], j + 1))
        } else if toks[j] == TokenV::Comma {
            if j < i {
                Err(ParsingErrorV::UnexpectedEndOfInput)
            } else {
                match spec_parse_args(toks, j + 1) {
                    Ok((rest, k)) => Ok((seq![e] + rest, k)),
                    Err(e2) => Err(e2),
                }
            }
        } else {
            Err(ParsingErrorV::UnexpectedToken(toks[j]))
        },
        Err(e) => Err(e),
    }
}

/// The statements of a function body starting at `i`, and the position just
/// past the closing brace. A body that the input ends before closing is an
/// error: the grammar demands the brace.
pub open spec fn spec_parse_statements(toks: Seq<TokenV>, i: int) -> Result<
    (Seq<StatementV>, int),
    ParsingErrorV,
>
    decreases toks.len() - i,
{
    if i >= toks.len() {
        Err(ParsingErrorV::UnexpectedEndOfInput)
    } else {
        match toks[i] {
            TokenV::Return => match spec_parse_expr(toks, i + 1, 0) {
                Ok((e, j)) => if j <= i || j > toks.len() {
                    Err(ParsingErrorV::UnexpectedEndOfInput)
                } else {
                    match spec_parse_statements(toks, j) {
                        Ok((rest, k)) => Ok((seq![StatementV::Return(e)] + rest, k)),
                        Err(e2) => Err(e2),
                    }
                },
                Err(e) => Err(e),
            },
            TokenV::Identifier(name) => if i + 1 >= toks.len() {
                Err(ParsingErrorV::UnexpectedEndOfInput)
            } else if toks[i + 1] != TokenV::Equals {
                Err(ParsingErrorV::UnexpectedToken(toks[i + 1]))
            } else {
                match spec_parse_expr(toks, i + 2, 0) {
                    Ok((e, j)) => if j <= i || j > toks.len() {
                        Err(ParsingErrorV::UnexpectedEndOfInput)
                    } else {
                        match spec_parse_statements(toks, j) {
                            Ok((rest, k)) => Ok(
                                (seq![StatementV::Assignment(name, e)] + rest, k),
                            ),
                            Err(e2) => Err(e2),
                        }
                    },
                    Err(e) => Err(e),
                }
            },
            TokenV::RightBrace => Ok((Seq::empty(), i + 1)),
            t => Err(ParsingErrorV::UnexpectedToken(t)),
        }
    }
}

/// The empty program view.
pub open spec fn empty_program_v() -> ProgramV {
    ProgramV {
        functions: Seq::empty(),
        out_parameters: Seq::empty(),
        in_parameters: Seq::empty(),
    }
}

/// The whole program starting at `i`: `out` and `in` parameter declarations
/// and function declarations, in any order, until the input ends.
pub open spec fn spec_parse_program(toks: Seq<TokenV>, i: int) -> Result<ProgramV, ParsingErrorV>
    decreases toks.len() - i,
{
    if i >= toks.len() {
        Ok(empty_program_v())
    } else {
        match toks[i] {
            TokenV::Out => match spec_expect_typekind(toks, i + 1) {
                Ok((tk, j)) => if j >= toks.len() {
                    Err(ParsingErrorV::UnexpectedEndOfInput)
                } else {
                    match toks[j] {
                        TokenV::Identifier(name) => if j + 1 <= i {
                            Err(ParsingErrorV::UnexpectedEndOfInput)
                        } else {
                            match spec_parse_program(toks, j + 1) {
                                Ok(p) => Ok(ProgramV {
                                    out_parameters: seq![
                                        ParameterV { type_kind: tk, ident: name },
                                    ] + p.out_parameters,
                                    ..p
                                }),
                                Err(e) => Err(e),
                            }
                        },
                        t => Err(ParsingErrorV::UnexpectedToken(t)),
                    }
                },
                Err(e) => Err(e),
            },
            TokenV::In => match spec_expect_typekind(toks, i + 1) {
                Ok((tk, j)) => if j >= toks.len() {
                    Err(ParsingErrorV::UnexpectedEndOfInput)
                } else {
                    match toks[j] {
                        TokenV::Identifier(name) => if j + 1 <= i {
                            Err(ParsingErrorV::UnexpectedEndOfInput)
                        } else {
                            match spec_parse_program(toks, j + 1) {
                                Ok(p) => Ok(ProgramV {
                                    in_parameters: seq![
                                        ParameterV { type_kind: tk, ident: name },
                                    ] + p.in_parameters,
                                    ..p
                                }),
                                Err(e) => Err(e),
                            }
                        },
                        t => Err(ParsingErrorV::UnexpectedToken(t)),
                    }
                },
                Err(e) => Err(e),
            },
            t => {
                let tk_ok = t matches TokenV::Identifier(_) || spec_get_typekind(t) is Some;
                if !tk_ok {
                    Err(ParsingErrorV::UnexpectedToken(t))
                } else if i + 1 >= toks.len() {
                    Err(ParsingErrorV::UnexpectedEndOfInput)
                } else {
                    match toks[i + 1] {
                        TokenV::Identifier(fname) => if i + 2 >= toks.len() {
                            Err(ParsingErrorV::UnexpectedEndOfInput)
                        } else if toks[i + 2] != TokenV::LeftParen {
                            Err(ParsingErrorV::UnexpectedToken(toks[i + 2]))
                        } else if i + 3 >= toks.len() {
                            Err(ParsingErrorV::UnexpectedEndOfInput)
                        } else if toks[i + 3] != TokenV::RightParen {
                            Err(ParsingErrorV::UnexpectedToken(toks[i + 3]))
                        } else if i + 4 >= toks.len() {
                            Err(ParsingErrorV::UnexpectedEndOfInput)
                        } else if toks[i + 4] != TokenV::LeftBrace {
                            Err(ParsingErrorV::UnexpectedToken(toks[i + 4]))
                        } else {
                            match spec_parse_statements(toks, i + 5) {
                                Ok((stmts, j)) => if j <= i || j > toks.len() {
                                    Err(ParsingErrorV::UnexpectedEndOfInput)
                                } else {
                                    match spec_parse_program(toks, j) {
                                        Ok(p) => Ok(ProgramV {
                                            functions: seq![
                                                FunctionDeclarationV {
                                                    ident: fname,
                                                    param_types: Seq::empty(),
                                                    statements: stmts,
                                                },
                                            ] + p.functions,
                                            ..p
                                        }),
                                        Err(e) => Err(e),
                                    }
                                },
                                Err(e) => Err(e),
                            }
                        },
                        t2 => Err(ParsingErrorV::UnexpectedToken(t2)),
                    }
                }
            },
        }
    }
}

/// Parses the expression starting at the cursor with the given minimum
/// binding power, exactly as `spec_parse_expr` describes.
#[verifier::rlimit(100)]
pub fn parse_expr_bp(lexer: &mut TokenSource, min_bp: u8) -> (r: Result<Expr, ParsingError>)
    requires
        old(lexer).wf(),
    ensures
        final(lexer).wf(),
        final(lexer).tokens@ == old(lexer).tokens@,
        old(lexer).pos <= final(lexer).pos,
        match spec_parse_expr(old(lexer).toks(), old(lexer).pos as int, min_bp) {
            Ok((ev, j)) => r matches Ok(e) && e@ == ev && final(lexer).pos == j && old(lexer).pos
                < final(lexer).pos,
            Err(e) => r matches Err(er) && er@ == e,
        },
    decreases lexer.tokens@.len() - lexer.pos,
{
    let ghost toks = lexer.toks();
    let ghost i0 = lexer.pos as int;
    let token = match lexer.expect_next() {
        Ok(t) => t,
        Err(e) => {
            return Err(e);
        },
    };
    proof {
        assert(toks[i0] == old(lexer).tokens@[i0].item@);
    }
    let mut lhs: Expr;
    match token.item {
        Token::FloatLiteral(f) => {
            lhs = Expr::Literal(Spanned::new(Literal::DecimalLiteral(f), token.from, token.to));
            proof {
                assert(spec_parse_expr(toks, i0, min_bp) == spec_parse_infix(
                    toks,
                    i0 + 1,
                    lhs@,
                    min_bp,
                ));
            }
        },
        Token::IntegerLiteral(v) => {
            lhs = Expr::Literal(Spanned::new(Literal::IntegerLiteral(v), token.from, token.to));
            proof {
                assert(spec_parse_expr(toks, i0, min_bp) == spec_parse_infix(
                    toks,
                    i0 + 1,
                    lhs@,
                    min_bp,
                ));
            }
        },
        Token::Identifier(id) => {
            let ghost id_v = id@;
            let is_call = match lexer.peek() {
                Some(t) => matches!(t.item, Token::LeftParen),
                None => false,
            };
            if is_call {
                lexer.next();
                let mut exprs: Vec<Expr> = Vec::new();
                proof {
                    assert(toks[i0 + 1] == TokenV::LeftParen);
                    assert(exprs_view(exprs@) =~= Seq::<ExprV>::empty());
                }
                let empty_args = match lexer.peek() {
                    Some(t) => matches!(t.item, Token::RightParen),
                    None => false,
                };
                proof {
                    if (lexer.pos as int) < toks.len() {
                        assert(toks[lexer.pos as int] == lexer.tokens@[lexer.pos as int].item@);
                    }
                }
                if empty_args {
                    lexer.next();
                    proof {
                        assert(toks[i0 + 2] == TokenV::RightParen);
                    }
                } else {
                proof {
                    if i0 + 2 < toks.len() {
                        assert(toks[i0 + 2] != TokenV::RightParen);
                    }
                }
                loop
                    invariant_except_break
                        lexer.wf(),
                        lexer.tokens@ == old(lexer).tokens@,
                        toks == tokens_view(lexer.tokens@),
                        i0 == old(lexer).pos as int,
                        0 <= i0,
                        i0 + 1 < toks.len(),
                        toks[i0] == TokenV::Identifier(id_v),
                        toks[i0 + 1] == TokenV::LeftParen,
                        i0 + 2 < toks.len() ==> toks[i0 + 2] != TokenV::RightParen,
                        i0 + 2 <= lexer.pos as int <= toks.len(),
                        spec_parse_args(toks, i0 + 2) == (match spec_parse_args(
                            toks,
                            lexer.pos as int,
                        ) {
                            Ok((rest, k)) => Ok::<_, ParsingErrorV>(
                                (exprs_view(exprs@) + rest, k),
                            ),
                            Err(e) => Err::<(Seq<ExprV>, int), _>(e),
                        }),
                    ensures
                        lexer.wf(),
                        lexer.tokens@ == old(lexer).tokens@,
                        toks == tokens_view(lexer.tokens@),
                        i0 + 2 < lexer.pos as int <= toks.len(),
                        spec_parse_args(toks, i0 + 2) == Ok::<_, ParsingErrorV>(
                            (exprs_view(exprs@), lexer.pos as int),
                        ),
                    decreases toks.len() - lexer.pos,
                {
                    let ghost argpos = lexer.pos as int;
                    let ghost exprs_old = exprs@;
                    let e = match parse_expr_bp(lexer, 0) {
                        Ok(e) => e,
                        Err(err) => {
                            proof {
                                assert(spec_parse_args(toks, argpos) == Err::<
                                    (Seq<ExprV>, int),
                                    _,
                                >(err@));
                                assert(spec_parse_expr(toks, i0, min_bp) == Err::<
                                    (ExprV, int),
                                    _,
                                >(err@));
                            }
                            return Err(err);
                        },
                    };
                    let ghost ev = e@;
                    exprs.push(e);
                    proof {
                        lemma_exprs_view_push(exprs_old, exprs@[exprs@.len() - 1]);
                        assert(exprs_view(exprs@) == exprs_view(exprs_old).push(ev));
                    }
                    let t2 = match lexer.expect_next() {
                        Ok(t) => t,
                        Err(e2) => {
                            proof {
                                assert(spec_parse_args(toks, argpos) == Err::<
                                    (Seq<ExprV>, int),
                                    _,
                                >(ParsingErrorV::UnexpectedEndOfInput));
                                assert(spec_parse_expr(toks, i0, min_bp) == Err::<
                                    (ExprV, int),
                                    _,
                                >(ParsingErrorV::UnexpectedEndOfInput));
                            }
                            return Err(e2);
                        },
                    };
                    proof {
                        assert(toks[lexer.pos - 1] == old(lexer).tokens@[lexer.pos - 1].item@);
                    }
                    match t2.item {
                        Token::RightParen => {
                            proof {
                                assert(spec_parse_args(toks, argpos) == Ok::<_, ParsingErrorV>(
                                    (seq![ev], lexer.pos as int),
                                ));
                                assert(exprs_view(exprs_old) + seq![ev] =~= exprs_view(exprs@));
                            }
                            break;
                        },
                        Token::Comma => {
                            proof {
                                assert(spec_parse_args(toks, argpos) == (match spec_parse_args(
                                    toks,
                                    lexer.pos as int,
                                ) {
                                    Ok((rest, k)) => Ok::<_, ParsingErrorV>((seq![ev] + rest, k)),
                                    Err(e2) => Err::<(Seq<ExprV>, int), _>(e2),
                                }));
                                if let Ok((rest, k)) = spec_parse_args(toks, lexer.pos as int) {
                                    assert(exprs_view(exprs_old) + (seq![ev] + rest)
                                        =~= exprs_view(exprs@) + rest);
                                }
                            }
                        },
                        _ => {
                            proof {
                                assert(spec_parse_args(toks, argpos) == Err::<
                                    (Seq<ExprV>, int),
                                    _,
                                >(ParsingErrorV::UnexpectedToken(toks[lexer.pos - 1])));
                                assert(spec_parse_expr(toks, i0, min_bp) == Err::<
                                    (ExprV, int),
                                    _,
                                >(ParsingErrorV::UnexpectedToken(toks[lexer.pos - 1])));
                            }
                            return Err(ParsingError::UnexpectedToken(t2));
                        },
                    }
                }
                }
                lhs = Expr::FuncCall(Spanned::new(id, token.from, token.to), exprs);
                proof {
                    assert(lhs@ == ExprV::FuncCall(id_v, exprs_view(exprs@)));
                    assert(spec_parse_expr(toks, i0, min_bp) == spec_parse_infix(
                        toks,
                        lexer.pos as int,
                        lhs@,
                        min_bp,
                    ));
                }
            } else {
                lhs = Expr::Symbol(Symbol { ident: id });
                proof {
                    assert(spec_parse_expr(toks, i0, min_bp) == spec_parse_infix(
                        toks,
                        i0 + 1,
                        lhs@,
                        min_bp,
                    ));
                }
            }
        },
        Token::LeftParen => {
            let e = match parse_expr_bp(lexer, 0) {
                Ok(e) => e,
                Err(err) => {
                    return Err(err);
                },
            };
            let ghost jn = lexer.pos as int;
            match lexer.expect_token(Token::RightParen) {
                Ok(_) => (),
                Err(err) => {
                    proof {
                        assert(spec_parse_expr(toks, i0, min_bp) == Err::<(ExprV, int), _>(
                            err@,
                        ));
                    }
                    return Err(err);
                },
            }
            lhs = e;
            proof {
                assert(toks[jn] == TokenV::RightParen);
                assert(spec_parse_expr(toks, i0, min_bp) == spec_parse_infix(
                    toks,
                    jn + 1,
                    lhs@,
                    min_bp,
                ));
            }
        },
        Token::Minus => {
            let rhs = match parse_expr_bp(lexer, 5) {
                Ok(e) => e,
                Err(err) => {
                    return Err(err);
                },
            };
            let ghost rv = rhs@;
            lhs = Expr::UnaryOp(UnaryOperator::Sub, Box::new(rhs));
            proof {
                assert(lhs@ == ExprV::UnaryOp(UnaryOperator::Sub, Box::new(rv)));
                assert(spec_parse_expr(toks, i0, min_bp) == spec_parse_infix(
                    toks,
                    lexer.pos as int,
                    lhs@,
                    min_bp,
                ));
            }
        },
        t => {
            return Err(ParsingError::UnexpectedToken(Spanned::new(t, token.from, token.to)));
        },
    }

    loop
        invariant_except_break
            lexer.wf(),
            lexer.tokens@ == old(lexer).tokens@,
            toks == tokens_view(lexer.tokens@),
            i0 == old(lexer).pos as int,
            i0 < lexer.pos as int <= toks.len(),
            spec_parse_expr(toks, i0, min_bp) == spec_parse_infix(
                toks,
                lexer.pos as int,
                lhs@,
                min_bp,
            ),
        ensures
            lexer.wf(),
            lexer.tokens@ == old(lexer).tokens@,
            toks == tokens_view(lexer.tokens@),
            i0 == old(lexer).pos as int,
            i0 < lexer.pos as int <= toks.len(),
            spec_parse_expr(toks, i0, min_bp) == Ok::<(ExprV, int), ParsingErrorV>(
                (lhs@, lexer.pos as int),
            ),
        decreases toks.len() - lexer.pos,
    {
        let opt_op = match lexer.peek() {
            Some(t) => get_infix_operator(&t.item),
            None => None,
        };
        proof {
            if (lexer.pos as int) < toks.len() {
                assert(toks[lexer.pos as int] == lexer.tokens@[lexer.pos as int].item@);
            }
        }
        let op = match opt_op {
            Some(op) => op,
            None => {
                proof {
                    if (lexer.pos as int) < toks.len() {
                        assert(opt_op == spec_get_infix_operator(toks[lexer.pos as int]));
                    }
                    lemma_infix_idle(toks, lexer.pos as int, lhs@, min_bp);
                }
                break;
            },
        };
        let bp = infix_binding_power(op);
        if bp.0 < min_bp {
            proof {
                assert(opt_op == spec_get_infix_operator(toks[lexer.pos as int]));
                assert(bp == spec_infix_binding_power(op));
                lemma_infix_idle(toks, lexer.pos as int, lhs@, min_bp);
            }
            break;
        }
        let ghost oppos = lexer.pos as int;
        let ghost lhs_v = lhs@;
        lexer.next();
        let rhs = match parse_expr_bp(lexer, bp.1) {
            Ok(e) => e,
            Err(err) => {
                proof {
                    lemma_infix_step(toks, oppos, lhs_v, min_bp, op);
                }
                return Err(err);
            },
        };
        let ghost rhs_v = rhs@;
        lhs = Expr::BinaryOp(op, Box::new(lhs), Box::new(rhs));
        proof {
            lemma_infix_step(toks, oppos, lhs_v, min_bp, op);
            assert(lhs@ == ExprV::BinaryOp(op, Box::new(lhs_v), Box::new(rhs_v)));
            assert(spec_parse_infix(toks, oppos, lhs_v, min_bp) == spec_parse_infix(
                toks,
                lexer.pos as int,
                lhs@,
                min_bp,
            ));
        }
    }
    Ok(lhs)
}

/// Parses the statements of a function body, exactly as
/// `spec_parse_statements` describes.
#[verifier::rlimit(100)]
pub fn parse_statements(tokens: &mut TokenSource) -> (r: Result<Vec<Statement>, ParsingError>)
    requires
        old(tokens).wf(),
    ensures
        final(tokens).wf(),
        final(tokens).tokens@ == old(tokens).tokens@,
        old(tokens).pos <= final(tokens).pos,
        match spec_parse_statements(old(tokens).toks(), old(tokens).pos as int) {
            Ok((sv, j)) => r matches Ok(sts) && stmts_view(sts@) == sv && final(tokens).pos == j,
            Err(e) => r matches Err(er) && er@ == e,
        },
{
    let ghost toks = tokens.toks();
    let ghost p0 = tokens.pos as int;
    let mut output: Vec<Statement> = Vec::new();
    proof {
        assert(stmts_view(output@) =~= Seq::<StatementV>::empty());
    }
    loop
        invariant_except_break
            tokens.wf(),
            tokens.tokens@ == old(tokens).tokens@,
            toks == tokens_view(tokens.tokens@),
            p0 == old(tokens).pos as int,
            p0 <= tokens.pos as int <= toks.len(),
            spec_parse_statements(toks, p0) == (match spec_parse_statements(
                toks,
                tokens.pos as int,
            ) {
                Ok((rest, k)) => Ok::<_, ParsingErrorV>((stmts_view(output@) + rest, k)),
                Err(e) => Err::<(Seq<StatementV>, int), _>(e),
            }),
        ensures
            tokens.wf(),
            tokens.tokens@ == old(tokens).tokens@,
            toks == tokens_view(tokens.tokens@),
            p0 == old(tokens).pos as int,
            p0 <= tokens.pos as int <= toks.len(),
            spec_parse_statements(toks, p0) == Ok::<_, ParsingErrorV>(
                (stmts_view(output@), tokens.pos as int),
            ),
        decreases toks.len() - tokens.pos + 1,
    {
        let ghost pos_before = tokens.pos as int;
        let token = match tokens.next() {
            Some(t) => t,
            None => {
                return Err(ParsingError::UnexpectedEndOfInput);
            },
        };
        match token.item {
            Token::Return => {
                let e = match parse_expr_bp(tokens, 0) {
                    Ok(e) => e,
                    Err(err) => {
                        return Err(err);
                    },
                };
                let ghost ev = e@;
                let ghost out_old = output@;
                output.push(Statement::Return(e));
                proof {
                    lemma_stmts_view_push(out_old, output@[output@.len() - 1]);
                    if let Ok((rest, k)) = spec_parse_statements(toks, tokens.pos as int) {
                        assert(stmts_view(out_old) + (seq![StatementV::Return(ev)] + rest)
                            =~= stmts_view(output@) + rest);
                    }
                }
            },
            Token::Identifier(name) => {
                match tokens.expect_token(Token::Equals) {
                    Ok(_) => (),
                    Err(err) => {
                        return Err(err);
                    },
                }
                let ghost name_v = name@;
                let e = match parse_expr_bp(tokens, 0) {
                    Ok(e) => e,
                    Err(err) => {
                        return Err(err);
                    },
                };
                let ghost ev = e@;
                let ghost out_old = output@;
                output.push(
                    Statement::Assignment(Spanned::new(name, token.from, token.to), e),
                );
                proof {
                    lemma_stmts_view_push(out_old, output@[output@.len() - 1]);
                    if let Ok((rest, k)) = spec_parse_statements(toks, tokens.pos as int) {
                        assert(stmts_view(out_old) + (seq![StatementV::Assignment(name_v, ev)]
                            + rest) =~= stmts_view(output@) + rest);
                    }
                }
            },
            Token::RightBrace => {
                proof {
                    assert(stmts_view(output@) + Seq::<StatementV>::empty() =~= stmts_view(
                        output@,
                    ));
                }
                break;
            },
            t => {
                return Err(ParsingError::UnexpectedToken(Spanned::new(t, token.from, token.to)));
            },
        }
    }
    Ok(output)
}

/// The views of a statement sequence.
pub open spec fn stmts_view(q: Seq<Statement>) -> Seq<StatementV> {
    Seq::new(q.len(), |i: int| q[i]@)
}

pub proof fn lemma_stmts_view_push(q: Seq<Statement>, st: Statement)
    ensures
        stmts_view(q.push(st)) == stmts_view(q).push(st@),
{
    assert(stmts_view(q.push(st)) =~= stmts_view(q).push(st@));
}

/// Parses a whole program, exactly as `spec_parse_program` describes.
#[verifier::rlimit(100)]
pub fn parse_program(tokens: &mut TokenSource) -> (r: Result<Program, ParsingError>)
    requires
        old(tokens).wf(),
    ensures
        final(tokens).wf(),
        match spec_parse_program(old(tokens).toks(), old(tokens).pos as int) {
            Ok(pv) => r matches Ok(p) && p@ == pv,
            Err(e) => r matches Err(er) && er@ == e,
        },
{
    let ghost toks = tokens.toks();
    let ghost p0 = tokens.pos as int;
    let mut functions: Vec<FunctionDeclaration> = Vec::new();
    let mut out_parameters: Vec<OutParameterDeclaration> = Vec::new();
    let mut in_parameters: Vec<InParameterDeclaration> = Vec::new();

    loop
        invariant_except_break
            tokens.wf(),
            tokens.tokens@ == old(tokens).tokens@,
            toks == tokens_view(tokens.tokens@),
            p0 == old(tokens).pos as int,
            p0 <= tokens.pos as int <= toks.len(),
            spec_parse_program(toks, p0) == (match spec_parse_program(toks, tokens.pos as int) {
                Ok(p) => Ok::<_, ParsingErrorV>(ProgramV {
                    functions: fns_view(functions@) + p.functions,
                    out_parameters: params_view_out(out_parameters@) + p.out_parameters,
                    in_parameters: params_view_in(in_parameters@) + p.in_parameters,
                }),
                Err(e) => Err::<ProgramV, _>(e),
            }),
        ensures
            tokens.wf(),
            tokens.tokens@ == old(tokens).tokens@,
            toks == tokens_view(tokens.tokens@),
            p0 == old(tokens).pos as int,
            spec_parse_program(toks, p0) == Ok::<_, ParsingErrorV>(ProgramV {
                functions: fns_view(functions@),
                out_parameters: params_view_out(out_parameters@),
                in_parameters: params_view_in(in_parameters@),
            }),
        decreases toks.len() - tokens.pos + 1,
    {
        let ghost pos_before = tokens.pos as int;
        let token = match tokens.next() {
            Some(t) => t,
            None => {
                proof {
                    assert(spec_parse_program(toks, tokens.pos as int) == Ok::<_, ParsingErrorV>(
                        empty_program_v(),
                    ));
                    assert(fns_view(functions@) + Seq::<FunctionDeclarationV>::empty()
                        =~= fns_view(functions@));
                    assert(params_view_out(out_parameters@) + Seq::<ParameterV>::empty()
                        =~= params_view_out(out_parameters@));
                    assert(params_view_in(in_parameters@) + Seq::<ParameterV>::empty()
                        =~= params_view_in(in_parameters@));
                }
                break;
            },
        };
        proof {
            assert(toks[pos_before] == token.item@);
        }
        let ghost tok_v = token.item@;
        match token.item {
            Token::Out => {
                let type_kind = match expect_typekind(tokens) {
                    Ok(tk) => tk,
                    Err(err) => {
                        proof {
                            assert(spec_parse_program(toks, pos_before) == Err::<ProgramV, _>(
                                err@,
                            ));
                        }
                        return Err(err);
                    },
                };
                let ghost j = tokens.pos as int;
                let ghost tkv = type_kind.item@;
                let ident = match tokens.expect_identifier() {
                    Ok(id) => id,
                    Err(err) => {
                        proof {
                            assert(spec_parse_program(toks, pos_before) == Err::<ProgramV, _>(
                                err@,
                            ));
                        }
                        return Err(err);
                    },
                };
                let ghost namev = ident.item@;
                let ghost old_outs = out_parameters@;
                out_parameters.push(OutParameterDeclaration { type_kind, ident });
                proof {
                    lemma_program_out_step(toks, pos_before, tkv, namev);
                    assert(out_parameters@[out_parameters@.len() - 1]@ == (ParameterV {
                        type_kind: tkv,
                        ident: namev,
                    }));
                    assert(params_view_out(out_parameters@) =~= params_view_out(old_outs).push(
                        out_parameters@[out_parameters@.len() - 1]@,
                    ));
                    if let Ok(p) = spec_parse_program(toks, tokens.pos as int) {
                        assert(params_view_out(old_outs) + (seq![
                            out_parameters@[out_parameters@.len() - 1]@,
                        ] + p.out_parameters) =~= params_view_out(out_parameters@)
                            + p.out_parameters);
                    }
                }
            },
            Token::In => {
                let type_kind = match expect_typekind(tokens) {
                    Ok(tk) => tk,
                    Err(err) => {
                        proof {
                            assert(spec_parse_program(toks, pos_before) == Err::<ProgramV, _>(
                                err@,
                            ));
                        }
                        return Err(err);
                    },
                };
                let ghost j = tokens.pos as int;
                let ghost tkv = type_kind.item@;
                let ident = match tokens.expect_identifier() {
                    Ok(id) => id,
                    Err(err) => {
                        proof {
                            assert(spec_parse_program(toks, pos_before) == Err::<ProgramV, _>(
                                err@,
                            ));
                        }
                        return Err(err);
                    },
                };
                let ghost namev = ident.item@;
                let ghost old_ins = in_parameters@;
                in_parameters.push(InParameterDeclaration { type_kind, ident });
                proof {
                    lemma_program_in_step(toks, pos_before, tkv, namev);
                    assert(in_parameters@[in_parameters@.len() - 1]@ == (ParameterV {
                        type_kind: tkv,
                        ident: namev,
                    }));
                    assert(params_view_in(in_parameters@) =~= params_view_in(old_ins).push(
                        in_parameters@[in_parameters@.len() - 1]@,
                    ));
                    if let Ok(p) = spec_parse_program(toks, tokens.pos as int) {
                        assert(params_view_in(old_ins) + (seq![
                            in_parameters@[in_parameters@.len() - 1]@,
                        ] + p.in_parameters) =~= params_view_in(in_parameters@)
                            + p.in_parameters);
                    }
                }
            },
            t => {
                let ghost tv = t@;
                let tk_ok = match &t {
                    Token::Identifier(_) => true,
                    other => get_typekind(other).is_some(),
                };
                if !tk_ok {
                    proof {
                        assert(spec_parse_program(toks, pos_before) == Err::<ProgramV, _>(
                            ParsingErrorV::UnexpectedToken(tv),
                        ));
                    }
                    return Err(ParsingError::UnexpectedToken(
                        Spanned::new(t, token.from, token.to),
                    ));
                }
                let ident = match tokens.expect_identifier() {
                    Ok(id) => id,
                    Err(err) => {
                        proof {
                            assert(spec_parse_program(toks, pos_before) == Err::<ProgramV, _>(
                                err@,
                            ));
                        }
                        return Err(err);
                    },
                };
                let ghost fnamev = ident.item@;
                match tokens.expect_token(Token::LeftParen) {
                    Ok(_) => (),
                    Err(err) => {
                        proof {
                            assert(spec_parse_program(toks, pos_before) == Err::<ProgramV, _>(
                                err@,
                            ));
                        }
                        return Err(err);
                    },
                }
                match tokens.expect_token(Token::RightParen) {
                    Ok(_) => (),
                    Err(err) => {
                        proof {
                            assert(spec_parse_program(toks, pos_before) == Err::<ProgramV, _>(
                                err@,
                            ));
                        }
                        return Err(err);
                    },
                }
                match tokens.expect_token(Token::LeftBrace) {
                    Ok(_) => (),
                    Err(err) => {
                        proof {
                            assert(spec_parse_program(toks, pos_before) == Err::<ProgramV, _>(
                                err@,
                            ));
                        }
                        return Err(err);
                    },
                }
                let statements = match parse_statements(tokens) {
                    Ok(sts) => sts,
                    Err(err) => {
                        proof {
                            assert(spec_parse_program(toks, pos_before) == Err::<ProgramV, _>(
                                err@,
                            ));
                        }
                        return Err(err);
                    },
                };
                let ghost stmtsv = stmts_view(statements@);
                let ghost old_fns = functions@;
                functions.push(
                    FunctionDeclaration { ident, param_types: Vec::new(), statements },
                );
                proof {
                    lemma_program_fn_step(toks, pos_before, fnamev);
                    assert(functions@[functions@.len() - 1]@.param_types
                        =~= Seq::<Seq<char>>::empty());
                    assert(functions@[functions@.len() - 1]@.statements =~= stmts_view(
                        functions@[functions@.len() - 1].statements@,
                    ));
                    assert(functions@[functions@.len() - 1]@ == (FunctionDeclarationV {
                        ident: fnamev,
                        param_types: Seq::empty(),
                        statements: stmtsv,
                    }));
                    assert(fns_view(functions@) =~= fns_view(old_fns).push(
                        functions@[functions@.len() - 1]@,
                    ));
                    if let Ok(p) = spec_parse_program(toks, tokens.pos as int) {
                        assert(fns_view(old_fns) + (seq![functions@[functions@.len() - 1]@]
                            + p.functions) =~= fns_view(functions@) + p.functions);
                    }
                }
            },
        }
    }
    let program = Program { functions, out_parameters, in_parameters };
    proof {
        assert(program@.functions =~= fns_view(program.functions@));
        assert(program@.out_parameters =~= params_view_out(program.out_parameters@));
        assert(program@.in_parameters =~= params_view_in(program.in_parameters@));
    }
    Ok(program)
}

/// The views of a function-declaration sequence.
pub open spec fn fns_view(q: Seq<FunctionDeclaration>) -> Seq<FunctionDeclarationV> {
    Seq::new(q.len(), |i: int| q[i]@)
}

/// The views of an `out` parameter sequence.
pub open spec fn params_view_out(q: Seq<OutParameterDeclaration>) -> Seq<ParameterV> {
    Seq::new(q.len(), |i: int| q[i]@)
}

/// The views of an `in` parameter sequence.
pub open spec fn params_view_in(q: Seq<InParameterDeclaration>) -> Seq<ParameterV> {
    Seq::new(q.len(), |i: int| q[i]@)
}

/// A failure while turning source text into a syntax tree: in scanning or in
/// parsing.
#[derive(Debug)]
pub enum SourceError {
    Scanning(ScanningError),
    Parsing(ParsingError),
}

/// View of a source failure.
pub enum SourceErrorV {
    Scanning(ScanningErrorV),
    Parsing(ParsingErrorV),
}

impl View for SourceError {
    type V = SourceErrorV;

    open spec fn view(&self) -> SourceErrorV {
        match self {
            SourceError::Scanning(e) => SourceErrorV::Scanning(e@),
            SourceError::Parsing(e) => SourceErrorV::Parsing(e@),
        }
    }
}

/// The syntax tree a character sequence denotes: scanning then parsing.
pub open spec fn spec_parse_source(s: Seq<char>) -> Result<ProgramV, SourceErrorV> {
    match spec_scan(s, 0) {
        Ok(toks) => match spec_parse_program(toks, 0) {
            Ok(p) => Ok(p),
            Err(e) => Err(SourceErrorV::Parsing(e)),
        },
        Err(e) => Err(SourceErrorV::Scanning(e)),
    }
}

/// The characters of a string, in order.
fn str_chars(s: &str) -> (r: Vec<char>)
    ensures
        r@ == s@,
{
    let n = s.unicode_len();
    let mut v: Vec<char> = Vec::new();
    for i in 0..n
        invariant
            n == s@.len(),
            v@ == s@.subrange(0, i as int),
    {
        v.push(s.get_char(i));
        proof {
            assert(v@ =~= s@.subrange(0, i + 1));
        }
    }
    proof {
        assert(v@ =~= s@);
    }
    v
}

/// Scans and parses a whole source text, exactly as `spec_parse_source`
/// describes.
pub fn parse(input: &str) -> (r: Result<Program, SourceError>)
    requires
        input@.len() < 0x2000_0000,
    ensures
        match spec_parse_source(input@) {
            Ok(pv) => r matches Ok(p) && p@ == pv,
            Err(e) => r matches Err(er) && er@ == e,
        },
{
    let chars = str_chars(input);
    let tokens = match Scanner::new(chars).scan_all() {
        Ok(ts) => ts,
        Err(e) => {
            return Err(SourceError::Scanning(e));
        },
    };
    let mut cursor = TokenSource::new(tokens);
    match parse_program(&mut cursor) {
        Ok(p) => Ok(p),
        Err(e) => Err(SourceError::Parsing(e)),
    }
}


pub proof fn lemma_infix_step(
    toks: Seq<TokenV>,
    i: int,
    lhs: ExprV,
    min_bp: u8,
    op: BinaryOperator,
)
    requires
        0 <= i < toks.len(),
        spec_get_infix_operator(toks[i]) == Some(op),
        spec_infix_binding_power(op).0 >= min_bp,
    ensures
        spec_parse_infix(toks, i, lhs, min_bp) == (match spec_parse_expr(
            toks,
            i + 1,
            spec_infix_binding_power(op).1,
        ) {
            Ok((rhs, j)) => if j <= i || j > toks.len() {
                Err::<(ExprV, int), ParsingErrorV>(ParsingErrorV::UnexpectedEndOfInput)
            } else {
                spec_parse_infix(
                    toks,
                    j,
                    ExprV::BinaryOp(op, Box::new(lhs), Box::new(rhs)),
                    min_bp,
                )
            },
            Err(e) => Err::<(ExprV, int), ParsingErrorV>(e),
        }),
{
}

pub proof fn lemma_program_out_step(toks: Seq<TokenV>, i: int, tk: TypeKindV, name: Seq<char>)
    requires
        0 <= i < toks.len(),
        toks[i] == TokenV::Out,
        spec_expect_typekind(toks, i + 1) == Ok::<(TypeKindV, int), ParsingErrorV>((tk, i + 2)),
        i + 2 < toks.len(),
        toks[i + 2] == TokenV::Identifier(name),
    ensures
        spec_parse_program(toks, i) == (match spec_parse_program(toks, i + 3) {
            Ok(p) => Ok::<ProgramV, ParsingErrorV>(ProgramV {
                functions: p.functions,
                out_parameters: seq![ParameterV { type_kind: tk, ident: name }]
                    + p.out_parameters,
                in_parameters: p.in_parameters,
            }),
            Err(e) => Err::<ProgramV, ParsingErrorV>(e),
        }),
{
}

pub proof fn lemma_program_in_step(toks: Seq<TokenV>, i: int, tk: TypeKindV, name: Seq<char>)
    requires
        0 <= i < toks.len(),
        toks[i] == TokenV::In,
        spec_expect_typekind(toks, i + 1) == Ok::<(TypeKindV, int), ParsingErrorV>((tk, i + 2)),
        i + 2 < toks.len(),
        toks[i + 2] == TokenV::Identifier(name),
    ensures
        spec_parse_program(toks, i) == (match spec_parse_program(toks, i + 3) {
            Ok(p) => Ok::<ProgramV, ParsingErrorV>(ProgramV {
                functions: p.functions,
                out_parameters: p.out_parameters,
                in_parameters: seq![ParameterV { type_kind: tk, ident: name }] + p.in_parameters,
            }),
            Err(e) => Err::<ProgramV, ParsingErrorV>(e),
        }),
{
}

pub proof fn lemma_program_fn_step(toks: Seq<TokenV>, i: int, fname: Seq<char>)
    requires
        0 <= i,
        i + 4 < toks.len(),
        !(toks[i] matches TokenV::Out),
        !(toks[i] matches TokenV::In),
        toks[i] matches TokenV::Identifier(_) || spec_get_typekind(toks[i]) is Some,
        toks[i + 1] == TokenV::Identifier(fname),
        toks[i + 2] == TokenV::LeftParen,
        toks[i + 3] == TokenV::RightParen,
        toks[i + 4] == TokenV::LeftBrace,
    ensures
        spec_parse_program(toks, i) == (match spec_parse_statements(toks, i + 5) {
            Ok((stmts, j)) => if j <= i || j > toks.len() {
                Err::<ProgramV, ParsingErrorV>(ParsingErrorV::UnexpectedEndOfInput)
            } else {
                match spec_parse_program(toks, j) {
                    Ok(p) => Ok::<ProgramV, ParsingErrorV>(ProgramV {
                        functions: seq![
                            FunctionDeclarationV {
                                ident: fname,
                                param_types: Seq::empty(),
                                statements: stmts,
                            },
                        ] + p.functions,
                        out_parameters: p.out_parameters,
                        in_parameters: p.in_parameters,
                    }),
                    Err(e) => Err::<ProgramV, ParsingErrorV>(e),
                }
            },
            Err(e) => Err::<ProgramV, ParsingErrorV>(e),
        }),
{
}

proof fn lemma_infix_idle(toks: Seq<TokenV>, i: int, lhs: ExprV, min_bp: u8)
    requires
        0 <= i,
        i >= toks.len() || spec_get_infix_operator(toks[i]) is None || (
        spec_get_infix_operator(toks[i]) matches Some(op)
            && spec_infix_binding_power(op).0 < min_bp),
    ensures
        spec_parse_infix(toks, i, lhs, min_bp) == Ok::<(ExprV, int), ParsingErrorV>((lhs, i)),
{
}

} // verus!
