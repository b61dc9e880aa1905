//! The syntax tree of the shading language, with the mathematical views that
//! the contracts of the later passes are stated over.
//!
//! Views abstract a node to its semantic content: identifiers become
//! character sequences and source spans are dropped, since no later pass
//! depends on them.

use vstd::prelude::*;

verus! {

pub type Ident = String;

/// A source position: a line number and, when known, an absolute character
/// offset from the start of the input.
#[derive(Debug, Clone, Copy)]
pub struct Position {
    pub line: u32,
    pub offset: Option<u32>,
}

/// A value together with the source span it was read from.
#[derive(Debug, Clone)]
pub struct Spanned<T> {
    pub item: T,
    pub from: Position,
    pub to: Position,
}

impl<T> Spanned<T> {
    pub fn new(item: T, from: Position, to: Position) -> (r: Spanned<T>)
        ensures
            r.item == item,
            r.from == from,
            r.to == to,
    {
        Spanned { item, from, to }
    }

    /// Wraps `item` in the span that starts where `s1` starts and ends where
    /// `s2` ends.
    pub fn encompass<A, B>(item: T, s1: Spanned<A>, s2: Spanned<B>) -> (r: Spanned<T>)
        ensures
            r.item == item,
            r.from == s1.from,
            r.to == s2.to,
    {
        Spanned { item, from: s1.from, to: s2.to }
    }

    /// Maps the wrapped value while keeping the span.
    pub fn map<U, F: FnOnce(&T) -> U>(&self, f: F) -> (r: Spanned<U>)
        requires
            call_requires(f, (&self.item,)),
        ensures
            call_ensures(f, (&self.item,), r.item),
            r.from == self.from,
            r.to == self.to,
    {
        Spanned { from: self.from, to: self.to, item: f(&self.item) }
    }
}

#[derive(Clone, Debug, Copy, PartialEq, Eq, Structural)]
pub enum BinaryOperator {
    Add,
    Sub,
    Mul,
    Div,
}

#[derive(Clone, Debug, Copy, PartialEq, Eq, Structural)]
pub enum UnaryOperator {
    Not,
    Sub,
}

/// A numeric literal. A decimal literal carries the bit pattern of the
/// single-precision value it denotes (see `crate::numerics`).
#[derive(Clone, Debug, Copy, PartialEq, Eq, Structural)]
pub enum Literal {
    IntegerLiteral(i64),
    DecimalLiteral(u32),
}

/// The type of a declared parameter or of an expression. A `TypeRef` is a
/// type named by an identifier, resolved during the resolution pass.
#[derive(Clone, Debug)]
pub enum TypeKind {
    Void,
    I32,
    F32,
    Vec3,
    TypeRef(Ident),
}

/// View of `TypeKind` with the identifier abstracted to its characters.
pub enum TypeKindV {
    Void,
    I32,
    F32,
    Vec3,
    TypeRef(Seq<char>),
}

impl View for TypeKind {
    type V = TypeKindV;

    open spec fn view(&self) -> TypeKindV {
        match self {
            TypeKind::Void => TypeKindV::Void,
            TypeKind::I32 => TypeKindV::I32,
            TypeKind::F32 => TypeKindV::F32,
            TypeKind::Vec3 => TypeKindV::Vec3,
            TypeKind::TypeRef(s) => TypeKindV::TypeRef(s@),
        }
    }
}

impl TypeKind {
    /// Structural equality of two types, identifiers compared by content.
    pub fn matches(&self, other: &TypeKind) -> (r: bool)
        ensures
            r == (self@ == other@),
    {
        match self {
            TypeKind::Void => matches!(other, TypeKind::Void),
            TypeKind::I32 => matches!(other, TypeKind::I32),
            TypeKind::F32 => matches!(other, TypeKind::F32),
            TypeKind::Vec3 => matches!(other, TypeKind::Vec3),
            TypeKind::TypeRef(a) => match other {
                TypeKind::TypeRef(b) => *a == *b,
                _ => false,
            },
        }
    }

    /// The number of bytes a value of this type occupies on the stack.
    pub fn size(&self) -> (r: usize)
        ensures
            r == type_size(self@),
    {
        match self {
            TypeKind::Void => 0,
            TypeKind::I32 => 4,
            TypeKind::F32 => 4,
            TypeKind::Vec3 => 12,
            TypeKind::TypeRef(_) => 0,
        }
    }
}

/// Byte size of a value of the given type: four per scalar, twelve per
/// 3-vector. Unresolved references and `Void` occupy nothing.
pub open spec fn type_size(t: TypeKindV) -> int {
    match t {
        TypeKindV::Void => 0,
        TypeKindV::I32 => 4,
        TypeKindV::F32 => 4,
        TypeKindV::Vec3 => 12,
        TypeKindV::TypeRef(_) => 0,
    }
}

/// A symbol read: a bare identifier appearing in an expression.
#[derive(Clone, Debug)]
pub struct Symbol {
    pub ident: Ident,
}

/// An expression tree. Each sub-expression is exclusively owned by its
/// parent.
#[derive(Debug)]
pub enum Expr {
    FuncCall(Spanned<Ident>, Vec<Expr>),
    BinaryOp(BinaryOperator, Box<Expr>, Box<Expr>),
    UnaryOp(UnaryOperator, Box<Expr>),
    Literal(Spanned<Literal>),
    Symbol(Symbol),
}

/// View of an expression: identifiers as character sequences, spans dropped.
pub enum ExprV {
    FuncCall(Seq<char>, Seq<ExprV>),
    BinaryOp(BinaryOperator, Box<ExprV>, Box<ExprV>),
    UnaryOp(UnaryOperator, Box<ExprV>),
    Literal(Literal),
    Symbol(Seq<char>),
}

pub open spec fn expr_view(e: Expr) -> ExprV
    decreases e, 0int,
{
    match e {
        Expr::FuncCall(id, args) => ExprV::FuncCall(id.item@, exprs_view(args@)),
        Expr::BinaryOp(op, e1, e2) => ExprV::BinaryOp(
            op,
            Box::new(expr_view(*e1)),
            Box::new(expr_view(*e2)),
        ),
        Expr::UnaryOp(op, e1) => ExprV::UnaryOp(op, Box::new(expr_view(*e1))),
        Expr::Literal(l) => ExprV::Literal(l.item),
        Expr::Symbol(s) => ExprV::Symbol(s.ident@),
    }
}

pub open spec fn exprs_view(es: Seq<Expr>) -> Seq<ExprV>
    decreases es, es.len() + 1,
{
    if es.len() <= 0 {
        Seq::empty()
    } else {
        exprs_view(es.subrange(0, es.len() - 1)).push(expr_view(es[es.len() - 1]))
    }
}

impl View for Expr {
    type V = ExprV;

    open spec fn view(&self) -> ExprV {
        expr_view(*self)
    }
}

pub proof fn lemma_exprs_view_push(es: Seq<Expr>, e: Expr)
    ensures
        exprs_view(es.push(e)) == exprs_view(es).push(expr_view(e)),
{
    assert(es.push(e).subrange(0, es.len() as int) =~= es);
    assert(es.push(e)[es.len() as int] == e);
}

pub proof fn lemma_exprs_view_empty()
    ensures
        exprs_view(Seq::<Expr>::empty()) == Seq::<ExprV>::empty(),
{
}

/// A statement: an assignment to a name, or a return.
#[derive(Debug)]
pub enum Statement {
    Assignment(Spanned<Ident>, Expr),
    Return(Expr),
}

pub enum StatementV {
    Assignment(Seq<char>, ExprV),
    Return(ExprV),
}

impl View for Statement {
    type V = StatementV;

    open spec fn view(&self) -> StatementV {
        match self {
            Statement::Assignment(id, e) => StatementV::Assignment(id.item@, expr_view(*e)),
            Statement::Return(e) => StatementV::Return(expr_view(*e)),
        }
    }
}

/// A function declaration: a name, a parameter-type list (the grammar admits
/// no parameters, so it is always empty), and a statement list.
#[derive(Debug)]
pub struct FunctionDeclaration {
    pub ident: Spanned<Ident>,
    pub param_types: Vec<Spanned<Ident>>,
    pub statements: Vec<Statement>,
}

pub struct FunctionDeclarationV {
    pub ident: Seq<char>,
    pub param_types: Seq<Seq<char>>,
    pub statements: Seq<StatementV>,
}

impl View for FunctionDeclaration {
    type V = FunctionDeclarationV;

    open spec fn view(&self) -> FunctionDeclarationV {
        FunctionDeclarationV {
            ident: self.ident.item@,
            param_types: Seq::new(self.param_types@.len(), |i: int| self.param_types@[i].item@),
            statements: Seq::new(self.statements@.len(), |i: int| self.statements@[i]@),
        }
    }
}

/// An `in` parameter: an input channel of the compiled program.
#[derive(Clone, Debug)]
pub struct InParameterDeclaration {
    pub type_kind: Spanned<TypeKind>,
    pub ident: Spanned<Ident>,
}

/// An `out` parameter: an output channel of the compiled program.
#[derive(Clone, Debug)]
pub struct OutParameterDeclaration {
    pub type_kind: Spanned<TypeKind>,
    pub ident: Spanned<Ident>,
}

/// View of an `in` or `out` parameter declaration.
pub struct ParameterV {
    pub type_kind: TypeKindV,
    pub ident: Seq<char>,
}

impl View for InParameterDeclaration {
    type V = ParameterV;

    open spec fn view(&self) -> ParameterV {
        ParameterV { type_kind: self.type_kind.item@, ident: self.ident.item@ }
    }
}

impl View for OutParameterDeclaration {
    type V = ParameterV;

    open spec fn view(&self) -> ParameterV {
        ParameterV { type_kind: self.type_kind.item@, ident: self.ident.item@ }
    }
}

/// A whole source program: functions plus declared input and output
/// parameters.
#[derive(Debug)]
pub struct Program {
    pub functions: Vec<FunctionDeclaration>,
    pub out_parameters: Vec<OutParameterDeclaration>,
    pub in_parameters: Vec<InParameterDeclaration>,
}

pub struct ProgramV {
    pub functions: Seq<FunctionDeclarationV>,
    pub out_parameters: Seq<ParameterV>,
    pub in_parameters: Seq<ParameterV>,
}

impl View for Program {
    type V = ProgramV;

    open spec fn view(&self) -> ProgramV {
        ProgramV {
            functions: Seq::new(self.functions@.len(), |i: int| self.functions@[i]@),
            out_parameters: Seq::new(
                self.out_parameters@.len(),
                |i: int| self.out_parameters@[i]@,
            ),
            in_parameters: Seq::new(self.in_parameters@.len(), |i: int| self.in_parameters@[i]@),
        }
    }
}

/// The first function of the sequence that bears the given name, if any.
pub open spec fn spec_find_function(fns: Seq<FunctionDeclarationV>, name: Seq<char>) -> Option<
    FunctionDeclarationV,
>
    decreases fns.len(),
{
    if fns.len() == 0 {
        None
    } else if fns[0].ident == name {
        Some(fns[0])
    } else {
        spec_find_function(fns.drop_first(), name)
    }
}

impl Program {
    pub fn new() -> (r: Program)
        ensures
            r@.functions.len() == 0,
            r@.out_parameters.len() == 0,
            r@.in_parameters.len() == 0,
    {
        Program { functions: Vec::new(), out_parameters: Vec::new(), in_parameters: Vec::new() }
    }

    /// The first declared function with the given name, if any.
    pub fn get_function(&self, ident: Ident) -> (r: Option<&FunctionDeclaration>)
        ensures
            match r {
                Some(f) => spec_find_function(self@.functions, ident@) == Some(f@),
                None => spec_find_function(self@.functions, ident@) is None,
            },
    {
        let n = self.functions.len();
        proof {
            assert(self@.functions.skip(0) =~= self@.functions);
        }
        for i in 0..n
            invariant
                n == self.functions.len(),
                spec_find_function(self@.functions, ident@) == spec_find_function(
                    self@.functions.skip(i as int),
                    ident@,
                ),
        {
            proof {
                assert(self@.functions.skip(i as int)[0] == self@.functions[i as int]);
                assert(self@.functions.skip(i as int).drop_first() =~= self@.functions.skip(
                    i + 1,
                ));
            }
            if self.functions[i].ident.item == ident {
                return Some(&self.functions[i]);
            }
        }
        proof {
            assert(self@.functions.skip(n as int).len() == 0);
        }
        None
    }
}

} // verus!
