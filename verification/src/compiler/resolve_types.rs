//! Resolution: binds names, validates types, and builds the symbol-table
//! metadata the code generator consumes.
//!
//! One traversal of the parsed program checks every declared parameter type,
//! types every expression, and populates a `ProgramData`: one `FuncMeta` per
//! function and one `SymbolMeta` per `in`/`out` parameter. The contract of
//! `resolve` is stated against the spec-level model `spec_resolve`.

use crate::ast::{
    Expr, ExprV, Ident, Literal, Program, ProgramV, Statement, StatementV, TypeKind, TypeKindV,
    UnaryOperator,
};
use crate::builtins::{builtin_name_exists, get_builtin_fn, spec_builtin_name_exists,
    spec_get_builtin};
use crate::compiler::program_data::{
    funcs_view, insert_func_table, insert_sym_table, lookup_func_table, lookup_sym_table,
    spec_insert_func, spec_insert_sym, spec_lookup_func, spec_lookup_sym, syms_view, FuncMeta,
    FuncMetaV, ProgramData, ProgramDataV, SymbolMeta, SymbolMetaV,
};
use crate::ast::{FunctionDeclarationV, ParameterV};
use vstd::prelude::*;

verus! {

/// A resolution failure: an unbound symbol or function name, or a type that
/// does not fit its use.
#[derive(Debug)]
pub enum ResolveError {
    UnknownSymbol(Ident),
    UnknownFunction(Ident),
    TypeMismatch,
}

pub enum ResolveErrorV {
    UnknownSymbol(Seq<char>),
    UnknownFunction(Seq<char>),
    TypeMismatch,
}

impl View for ResolveError {
    type V = ResolveErrorV;

    open spec fn view(&self) -> ResolveErrorV {
        match self {
            ResolveError::UnknownSymbol(s) => ResolveErrorV::UnknownSymbol(s@),
            ResolveError::UnknownFunction(s) => ResolveErrorV::UnknownFunction(s@),
            ResolveError::TypeMismatch => ResolveErrorV::TypeMismatch,
        }
    }
}

/// Resolves a declared type: a type reference must name the vector type.
pub open spec fn spec_resolve_type(t: TypeKindV) -> Result<TypeKindV, ResolveErrorV> {
    match t {
        TypeKindV::TypeRef(name) => if name == seq!['V', 'e', 'c', '3'] {
            Ok(TypeKindV::Vec3)
        } else {
            Err(ResolveErrorV::UnknownSymbol(name))
        },
        other => Ok(other),
    }
}

pub fn resolve_type(t: &TypeKind) -> (r: Result<TypeKind, ResolveError>)
    ensures
        match r {
            Ok(tk) => spec_resolve_type(t@) == Ok::<TypeKindV, ResolveErrorV>(tk@),
            Err(e) => spec_resolve_type(t@) == Err::<TypeKindV, ResolveErrorV>(e@),
        },
{
    match t {
        TypeKind::TypeRef(name) => {
            let vec3 = String::from_str("Vec3");
            proof {
                reveal_strlit("Vec3");
                assert(vec3@ =~= seq!['V', 'e', 'c', '3']);
            }
            if *name == vec3 {
                Ok(TypeKind::Vec3)
            } else {
                Err(ResolveError::UnknownSymbol(name.clone()))
            }
        },
        TypeKind::Void => Ok(TypeKind::Void),
        TypeKind::I32 => Ok(TypeKind::I32),
        TypeKind::F32 => Ok(TypeKind::F32),
        TypeKind::Vec3 => Ok(TypeKind::Vec3),
    }
}

/// The result type of a binary operator on two operand types: scalars
/// combine to a scalar, and a scalar times a vector scales the vector.
pub open spec fn spec_binop_type(
    op: crate::ast::BinaryOperator,
    ta: TypeKindV,
    tb: TypeKindV,
) -> Result<TypeKindV, ResolveErrorV> {
    if op == crate::ast::BinaryOperator::Mul && ta == TypeKindV::F32 && tb == TypeKindV::Vec3 {
        Ok(TypeKindV::Vec3)
    } else if ta == TypeKindV::F32 && tb == TypeKindV::F32 {
        Ok(TypeKindV::F32)
    } else {
        Err(ResolveErrorV::TypeMismatch)
    }
}

/// The type of an expression under the given local and global symbols and
/// function names. A call to a user function yields a scalar: the calling
/// convention returns one four-byte value.
pub open spec fn spec_type_of(
    e: ExprV,
    locals: Seq<(Seq<char>, SymbolMetaV)>,
    globals: Seq<(Seq<char>, SymbolMetaV)>,
    fns: Seq<(Seq<char>, FuncMetaV)>,
) -> Result<TypeKindV, ResolveErrorV>
    decreases e, 0int,
{
    match e {
        ExprV::Literal(l) => match l {
            Literal::DecimalLiteral(_) => Ok(TypeKindV::F32),
            Literal::IntegerLiteral(_) => Ok(TypeKindV::I32),
        },
        ExprV::Symbol(name) => match spec_lookup_sym(locals, name) {
            Some(m) => Ok(m.type_kind),
            None => match spec_lookup_sym(globals, name) {
                Some(m) => Ok(m.type_kind),
                None => Err(ResolveErrorV::UnknownSymbol(name)),
            },
        },
        ExprV::UnaryOp(op, e1) => if op != UnaryOperator::Sub {
            Err(ResolveErrorV::TypeMismatch)
        } else {
            match spec_type_of(*e1, locals, globals, fns) {
                Ok(TypeKindV::F32) => Ok(TypeKindV::F32),
                Ok(_) => Err(ResolveErrorV::TypeMismatch),
                Err(er) => Err(er),
            }
        },
        ExprV::BinaryOp(op, a, b) => match spec_type_of(*a, locals, globals, fns) {
            Ok(ta) => match spec_type_of(*b, locals, globals, fns) {
                Ok(tb) => spec_binop_type(op, ta, tb),
                Err(er) => Err(er),
            },
            Err(er) => Err(er),
        },
        ExprV::FuncCall(name, args) => match spec_types_of(args, locals, globals, fns) {
            Ok(tys) => match spec_get_builtin(name, tys) {
                Some((_, ret)) => Ok(ret),
                None => if spec_builtin_name_exists(name) {
                    Err(ResolveErrorV::TypeMismatch)
                } else if spec_lookup_func(fns, name) is Some {
                    Ok(TypeKindV::F32)
                } else {
                    Err(ResolveErrorV::UnknownFunction(name))
                },
            },
            Err(er) => Err(er),
        },
    }
}

/// The types of an argument list, left to right; the first failure wins.
pub open spec fn spec_types_of(
    es: Seq<ExprV>,
    locals: Seq<(Seq<char>, SymbolMetaV)>,
    globals: Seq<(Seq<char>, SymbolMetaV)>,
    fns: Seq<(Seq<char>, FuncMetaV)>,
) -> Result<Seq<TypeKindV>, ResolveErrorV>
    decreases es, es.len() + 1,
{
    if es.len() <= 0 {
        Ok(Seq::empty())
    } else {
        match spec_type_of(es[0], locals, globals, fns) {
            Ok(t) => match spec_types_of(es.subrange(1, es.len() as int), locals, globals, fns) {
                Ok(rest) => Ok(seq![t] + rest),
                Err(er) => Err(er),
            },
            Err(er) => Err(er),
        }
    }
}

pub proof fn lemma_type_of_call(
    namev: Seq<char>,
    argsv: Seq<ExprV>,
    lv: Seq<(Seq<char>, SymbolMetaV)>,
    gv: Seq<(Seq<char>, SymbolMetaV)>,
    fv: Seq<(Seq<char>, FuncMetaV)>,
)
    ensures
        spec_type_of(ExprV::FuncCall(namev, argsv), lv, gv, fv) == (match spec_types_of(
            argsv,
            lv,
            gv,
            fv,
        ) {
            Ok(tys) => match spec_get_builtin(namev, tys) {
                Some((idx, ret)) => Ok::<TypeKindV, ResolveErrorV>(ret),
                None => if spec_builtin_name_exists(namev) {
                    Err::<TypeKindV, ResolveErrorV>(ResolveErrorV::TypeMismatch)
                } else if spec_lookup_func(fv, namev) is Some {
                    Ok::<TypeKindV, ResolveErrorV>(TypeKindV::F32)
                } else {
                    Err::<TypeKindV, ResolveErrorV>(ResolveErrorV::UnknownFunction(namev))
                },
            },
            Err(er) => Err::<TypeKindV, ResolveErrorV>(er),
        }),
{
}

/// Computes the type of an expression, exactly as `spec_type_of` describes.
#[verifier::rlimit(50)]
#[verifier::loop_isolation(false)]
pub fn type_of_expr(
    e: &Expr,
    locals: &Vec<(Ident, SymbolMeta)>,
    globals: &Vec<(Ident, SymbolMeta)>,
    fns: &Vec<(Ident, FuncMeta)>,
) -> (r: Result<TypeKind, ResolveError>)
    ensures
        match r {
            Ok(tk) => spec_type_of(e@, syms_view(locals@), syms_view(globals@), funcs_view(fns@))
                == Ok::<TypeKindV, ResolveErrorV>(tk@),
            Err(er) => spec_type_of(e@, syms_view(locals@), syms_view(globals@), funcs_view(fns@))
                == Err::<TypeKindV, ResolveErrorV>(er@),
        },
    decreases *e,
{
    let ghost lv = syms_view(locals@);
    let ghost gv = syms_view(globals@);
    let ghost fv = funcs_view(fns@);
    match e {
        Expr::Literal(l) => match l.item {
            Literal::DecimalLiteral(_) => Ok(TypeKind::F32),
            Literal::IntegerLiteral(_) => Ok(TypeKind::I32),
        },
        Expr::Symbol(s) => match lookup_sym_table(locals, &s.ident) {
            Some(m) => Ok(clone_type(&m.type_kind)),
            None => match lookup_sym_table(globals, &s.ident) {
                Some(m) => Ok(clone_type(&m.type_kind)),
                None => Err(ResolveError::UnknownSymbol(s.ident.clone())),
            },
        },
        Expr::UnaryOp(op, e1) => match op {
            UnaryOperator::Sub => {
                let t1 = match type_of_expr(e1, locals, globals, fns) {
                    Ok(t) => t,
                    Err(er) => {
                        return Err(er);
                    },
                };
                match t1 {
                    TypeKind::F32 => Ok(TypeKind::F32),
                    _ => Err(ResolveError::TypeMismatch),
                }
            },
            _ => Err(ResolveError::TypeMismatch),
        },
        Expr::BinaryOp(op, a, b) => {
            let ta = match type_of_expr(a, locals, globals, fns) {
                Ok(t) => t,
                Err(er) => {
                    return Err(er);
                },
            };
            let tb = match type_of_expr(b, locals, globals, fns) {
                Ok(t) => t,
                Err(er) => {
                    return Err(er);
                },
            };
            let scale = matches!(op, crate::ast::BinaryOperator::Mul) && matches!(
                ta,
                TypeKind::F32,
            ) && matches!(tb, TypeKind::Vec3);
            if scale {
                Ok(TypeKind::Vec3)
            } else if matches!(ta, TypeKind::F32) && matches!(tb, TypeKind::F32) {
                Ok(TypeKind::F32)
            } else {
                Err(ResolveError::TypeMismatch)
            }
        },
        Expr::FuncCall(name, args) => {
            let ghost argsv = crate::ast::exprs_view(args@);
            let mut tys: Vec<TypeKind> = Vec::new();
            let n = args.len();
            proof {
                lemma_exprs_view_len(args@);
                assert(argsv.skip(0) =~= argsv);
                assert(Seq::new(tys@.len(), |i: int| tys@[i]@) =~= Seq::<TypeKindV>::empty());
            }
            for i in 0..n
                invariant
                    n == args@.len(),
                    argsv == crate::ast::exprs_view(args@),
                    lv == syms_view(locals@),
                    gv == syms_view(globals@),
                    fv == funcs_view(fns@),
                    spec_types_of(argsv, lv, gv, fv) == (match spec_types_of(
                        argsv.skip(i as int),
                        lv,
                        gv,
                        fv,
                    ) {
                        Ok(rest) => Ok::<Seq<TypeKindV>, ResolveErrorV>(
                            Seq::new(tys@.len(), |t: int| tys@[t]@) + rest,
                        ),
                        Err(er) => Err::<Seq<TypeKindV>, ResolveErrorV>(er),
                    }),
                decreases n - i,
            {
                proof {
                    lemma_exprs_view_index(args@, i as int);
                    assert(decreases_to!(*e => *args));
                    assert(decreases_to!(*args => args@));
                    assert(decreases_to!(args@ => args@[i as int]));
                    assert(argsv.skip(i as int)[0] == argsv[i as int]);
                    assert(argsv.skip(i as int).subrange(
                        1,
                        argsv.skip(i as int).len() as int,
                    ) =~= argsv.skip(i + 1));
                }
                let t = match type_of_expr(&args[i], locals, globals, fns) {
                    Ok(t) => t,
                    Err(er) => {
                        proof {
                            assert(spec_types_of(argsv, lv, gv, fv) == Err::<
                                Seq<TypeKindV>,
                                ResolveErrorV,
                            >(er@));
                            lemma_type_of_call(name.item@, argsv, lv, gv, fv);
                        }
                        return Err(er);
                    },
                };
                let ghost tys_old = Seq::new(tys@.len(), |t2: int| tys@[t2]@);
                tys.push(t);
                proof {
                    assert(Seq::new(tys@.len(), |t2: int| tys@[t2]@) =~= tys_old.push(
                        tys@[tys@.len() - 1]@,
                    ));
                    if let Ok(rest) = spec_types_of(argsv.skip(i + 1), lv, gv, fv) {
                        assert(tys_old + (seq![tys@[tys@.len() - 1]@] + rest) =~= Seq::new(
                            tys@.len(),
                            |t2: int| tys@[t2]@,
                        ) + rest);
                    }
                }
            }
            proof {
                assert(argsv.skip(n as int).len() == 0);
                assert(Seq::new(tys@.len(), |t2: int| tys@[t2]@) + Seq::<TypeKindV>::empty()
                    =~= Seq::new(tys@.len(), |t2: int| tys@[t2]@));
                assert(spec_types_of(argsv, lv, gv, fv) == Ok::<Seq<TypeKindV>, ResolveErrorV>(
                    Seq::new(tys@.len(), |t2: int| tys@[t2]@),
                ));
            }
            proof {
                lemma_type_of_call(name.item@, argsv, lv, gv, fv);
            }
            match get_builtin_fn(&name.item, &tys) {
                Some((_, ret)) => Ok(ret),
                None => {
                    if builtin_name_exists(&name.item) {
                        Err(ResolveError::TypeMismatch)
                    } else {
                        match lookup_func_table(fns, &name.item) {
                            Some(_) => Ok(TypeKind::F32),
                            None => Err(ResolveError::UnknownFunction(name.item.clone())),
                        }
                    }
                },
            }
        },
    }
}

/// An equal copy of a type.
pub fn clone_type(t: &TypeKind) -> (r: TypeKind)
    ensures
        r@ == t@,
{
    match t {
        TypeKind::Void => TypeKind::Void,
        TypeKind::I32 => TypeKind::I32,
        TypeKind::F32 => TypeKind::F32,
        TypeKind::Vec3 => TypeKind::Vec3,
        TypeKind::TypeRef(s) => TypeKind::TypeRef(s.clone()),
    }
}

pub proof fn lemma_exprs_view_len(es: Seq<Expr>)
    ensures
        crate::ast::exprs_view(es).len() == es.len(),
    decreases es.len(),
{
    if es.len() > 0 {
        lemma_exprs_view_len(es.subrange(0, es.len() - 1));
    }
}

pub proof fn lemma_exprs_view_index(es: Seq<Expr>, i: int)
    requires
        0 <= i < es.len(),
    ensures
        crate::ast::exprs_view(es)[i] == crate::ast::expr_view(es[i]),
        crate::ast::exprs_view(es).len() == es.len(),
    decreases es.len(),
{
    lemma_exprs_view_len(es);
    if es.len() > 0 {
        let pre = es.subrange(0, es.len() - 1);
        lemma_exprs_view_len(pre);
        if i < es.len() - 1 {
            lemma_exprs_view_index(pre, i);
            assert(pre[i] == es[i]);
        }
    }
}

/// Declares the given parameters as static symbols, in order, resolving
/// their declared types.
pub open spec fn spec_resolve_params(
    ps: Seq<ParameterV>,
    acc: Seq<(Seq<char>, SymbolMetaV)>,
) -> Result<Seq<(Seq<char>, SymbolMetaV)>, ResolveErrorV>
    decreases ps.len(),
{
    if ps.len() == 0 {
        Ok(acc)
    } else {
        match spec_resolve_type(ps[0].type_kind) {
            Ok(ty) => spec_resolve_params(
                ps.drop_first(),
                spec_insert_sym(
                    acc,
                    ps[0].ident,
                    SymbolMetaV { type_kind: ty, stack_offset: None, is_static: true },
                ),
            ),
            Err(e) => Err(e),
        }
    }
}


/// Whether every entry of a symbol table is a static slot that has not been
/// placed yet.
pub open spec fn all_static_unplaced(q: Seq<(Seq<char>, SymbolMetaV)>) -> bool {
    forall|i: int|
        0 <= i < q.len() ==> (#[trigger] q[i]).1.is_static && q[i].1.stack_offset is None
}

proof fn lemma_insert_keeps_static(
    q: Seq<(Seq<char>, SymbolMetaV)>,
    name: Seq<char>,
    m: SymbolMetaV,
)
    requires
        all_static_unplaced(q),
        m.is_static,
        m.stack_offset is None,
    ensures
        all_static_unplaced(spec_insert_sym(q, name, m)),
{
    crate::compiler::program_data::lemma_sym_index_lookup(q, name);
    let r = spec_insert_sym(q, name, m);
    assert forall|i: int|
        0 <= i < r.len() implies (#[trigger] r[i]).1.is_static && r[i].1.stack_offset
        is None by {
        match crate::compiler::program_data::spec_sym_index(q, name) {
            Some(j) => {
                if i != j {
                    assert(r[i] == q[i]);
                }
            },
            None => {
                if i < q.len() {
                    assert(r[i] == q[i]);
                }
            },
        }
    }
}

/// Declaring parameters only adds static, not-yet-placed slots.
proof fn lemma_resolve_params_static(ps: Seq<ParameterV>, acc: Seq<(Seq<char>, SymbolMetaV)>)
    requires
        all_static_unplaced(acc),
        spec_resolve_params(ps, acc) is Ok,
    ensures
        all_static_unplaced(spec_resolve_params(ps, acc)->Ok_0),
    decreases ps.len(),
{
    if ps.len() > 0 {
        let ty = spec_resolve_type(ps[0].type_kind)->Ok_0;
        let m = SymbolMetaV { type_kind: ty, stack_offset: None, is_static: true };
        lemma_insert_keeps_static(acc, ps[0].ident, m);
        lemma_resolve_params_static(ps.drop_first(), spec_insert_sym(acc, ps[0].ident, m));
    }
}

/// Every global symbol resolution yields is a static-section slot awaiting
/// its offset: the whole static table is marked static before code
/// generation places it.
pub proof fn lemma_resolve_globals_static(p: ProgramV)
    requires
        spec_resolve(p) is Ok,
    ensures
        all_static_unplaced(spec_resolve(p)->Ok_0.global_symbols),
{
    let g1 = spec_resolve_params(p.in_parameters, Seq::empty())->Ok_0;
    lemma_resolve_params_static(p.in_parameters, Seq::empty());
    lemma_resolve_params_static(p.out_parameters, g1);
}

/// The static-table entry a parameter declaration contributes.
pub open spec fn param_entry(p: ParameterV) -> (Seq<char>, SymbolMetaV) {
    (
        p.ident,
        SymbolMetaV {
            type_kind: spec_resolve_type(p.type_kind)->Ok_0,
            stack_offset: None,
            is_static: true,
        },
    )
}

/// A name is absent from a table exactly when no entry bears it.
proof fn lemma_lookup_none_iff(q: Seq<(Seq<char>, SymbolMetaV)>, name: Seq<char>)
    ensures
        (spec_lookup_sym(q, name) is None) <==> (forall|t: int|
            0 <= t < q.len() ==> (#[trigger] q[t]).0 != name),
{
    crate::compiler::program_data::lemma_sym_index_lookup(q, name);
    if spec_lookup_sym(q, name) is Some {
        if let Some(j) = crate::compiler::program_data::spec_sym_index(q, name) {
            assert(q[j].0 == name);
        }
    }
}

/// With fresh, pairwise-distinct names, declaring parameters appends their
/// entries to the table in declaration order.
proof fn lemma_resolve_params_order(ps: Seq<ParameterV>, acc: Seq<(Seq<char>, SymbolMetaV)>)
    requires
        spec_resolve_params(ps, acc) is Ok,
        forall|i: int|
            0 <= i < ps.len() ==> spec_lookup_sym(acc, (#[trigger] ps[i]).ident) is None,
        forall|i: int, j: int| 0 <= i < j < ps.len() ==> ps[i].ident != ps[j].ident,
    ensures
        spec_resolve_params(ps, acc)->Ok_0 == acc + ps.map_values(|p: ParameterV| param_entry(p)),
    decreases ps.len(),
{
    if ps.len() == 0 {
        assert(spec_resolve_params(ps, acc)->Ok_0 =~= acc + ps.map_values(
            |p: ParameterV| param_entry(p),
        ));
    } else {
        let m = SymbolMetaV {
            type_kind: spec_resolve_type(ps[0].type_kind)->Ok_0,
            stack_offset: None,
            is_static: true,
        };
        crate::compiler::program_data::lemma_sym_index_lookup(acc, ps[0].ident);
        assert(crate::compiler::program_data::spec_sym_index(acc, ps[0].ident) is None);
        let acc2 = acc.push((ps[0].ident, m));
        assert(spec_insert_sym(acc, ps[0].ident, m) == acc2);
        let rest = ps.drop_first();
        assert forall|i: int|
            0 <= i < rest.len() implies spec_lookup_sym(acc2, (#[trigger] rest[i]).ident)
            is None by {
            assert(rest[i] == ps[i + 1]);
            lemma_lookup_none_iff(acc, ps[i + 1].ident);
            lemma_lookup_none_iff(acc2, ps[i + 1].ident);
            assert(forall|t: int| 0 <= t < acc.len() ==> (#[trigger] acc2[t]) == acc[t]);
            assert(acc2[acc.len() as int].0 == ps[0].ident);
            assert(ps[0].ident != ps[i + 1].ident);
        }
        lemma_resolve_params_order(rest, acc2);
        assert(spec_resolve_params(ps, acc)->Ok_0 =~= acc + ps.map_values(
            |p: ParameterV| param_entry(p),
        ));
    }
}

/// With pairwise-distinct parameter names, the resolved global table is the
/// in-parameters' entries followed by the out-parameters' entries, in
/// declaration order; `lemma_static_layout` then places exactly this order
/// contiguously.
pub proof fn lemma_resolve_globals_order(p: ProgramV)
    requires
        spec_resolve(p) is Ok,
        forall|i: int, j: int|
            0 <= i < j < p.in_parameters.len() ==> p.in_parameters[i].ident
                != p.in_parameters[j].ident,
        forall|i: int, j: int|
            0 <= i < j < p.out_parameters.len() ==> p.out_parameters[i].ident
                != p.out_parameters[j].ident,
        forall|i: int, j: int|
            0 <= i < p.in_parameters.len() && 0 <= j < p.out_parameters.len() ==> (
            #[trigger] p.in_parameters[i]).ident != (#[trigger] p.out_parameters[j]).ident,
    ensures
        spec_resolve(p)->Ok_0.global_symbols == p.in_parameters.map_values(
            |q: ParameterV| param_entry(q),
        ) + p.out_parameters.map_values(|q: ParameterV| param_entry(q)),
{
    let empty_acc = Seq::<(Seq<char>, SymbolMetaV)>::empty();
    assert forall|i: int|
        0 <= i < p.in_parameters.len() implies spec_lookup_sym(
        empty_acc,
        (#[trigger] p.in_parameters[i]).ident,
    ) is None by {
        lemma_lookup_none_iff(empty_acc, p.in_parameters[i].ident);
    }
    lemma_resolve_params_order(p.in_parameters, empty_acc);
    let g1 = spec_resolve_params(p.in_parameters, empty_acc)->Ok_0;
    assert(g1 =~= p.in_parameters.map_values(|q: ParameterV| param_entry(q)));
    assert forall|j: int|
        0 <= j < p.out_parameters.len() implies spec_lookup_sym(
        g1,
        (#[trigger] p.out_parameters[j]).ident,
    ) is None by {
        lemma_lookup_none_iff(g1, p.out_parameters[j].ident);
        assert(forall|t: int|
            0 <= t < g1.len() ==> (#[trigger] g1[t]).0 == p.in_parameters[t].ident);
    }
    lemma_resolve_params_order(p.out_parameters, g1);
}

/// Declares every function name with fresh, empty metadata, in order.
pub open spec fn spec_declare_fns(
    fs: Seq<FunctionDeclarationV>,
    acc: Seq<(Seq<char>, FuncMetaV)>,
) -> Seq<(Seq<char>, FuncMetaV)>
    decreases fs.len(),
{
    if fs.len() == 0 {
        acc
    } else {
        spec_declare_fns(
            fs.drop_first(),
            spec_insert_func(
                acc,
                fs[0].ident,
                FuncMetaV { symbols: Seq::empty(), address: None },
            ),
        )
    }
}

/// Walks a statement list in order, typing every expression and collecting
/// the local symbols a function body declares.
pub open spec fn spec_resolve_stmts(
    sts: Seq<StatementV>,
    locals: Seq<(Seq<char>, SymbolMetaV)>,
    globals: Seq<(Seq<char>, SymbolMetaV)>,
    fns: Seq<(Seq<char>, FuncMetaV)>,
) -> Result<Seq<(Seq<char>, SymbolMetaV)>, ResolveErrorV>
    decreases sts.len(),
{
    if sts.len() == 0 {
        Ok(locals)
    } else {
        match sts[0] {
            StatementV::Assignment(name, e) => match spec_type_of(e, locals, globals, fns) {
                Ok(ty) => match spec_lookup_sym(globals, name) {
                    Some(g) => if g.type_kind == ty {
                        spec_resolve_stmts(sts.drop_first(), locals, globals, fns)
                    } else {
                        Err(ResolveErrorV::TypeMismatch)
                    },
                    None => spec_resolve_stmts(
                        sts.drop_first(),
                        spec_insert_sym(
                            locals,
                            name,
                            SymbolMetaV { type_kind: ty, stack_offset: None, is_static: false },
                        ),
                        globals,
                        fns,
                    ),
                },
                Err(e) => Err(e),
            },
            StatementV::Return(e) => match spec_type_of(e, locals, globals, fns) {
                Ok(_) => spec_resolve_stmts(sts.drop_first(), locals, globals, fns),
                Err(e2) => Err(e2),
            },
        }
    }
}

/// Resolves every function body in order, filling the table entry of each
/// with the local symbols its body declares.
pub open spec fn spec_resolve_fns(
    fs: Seq<FunctionDeclarationV>,
    table: Seq<(Seq<char>, FuncMetaV)>,
    globals: Seq<(Seq<char>, SymbolMetaV)>,
    fns0: Seq<(Seq<char>, FuncMetaV)>,
) -> Result<Seq<(Seq<char>, FuncMetaV)>, ResolveErrorV>
    decreases fs.len(),
{
    if fs.len() == 0 {
        Ok(table)
    } else {
        match spec_resolve_stmts(fs[0].statements, Seq::empty(), globals, fns0) {
            Ok(locals) => spec_resolve_fns(
                fs.drop_first(),
                spec_insert_func(
                    table,
                    fs[0].ident,
                    FuncMetaV { symbols: locals, address: None },
                ),
                globals,
                fns0,
            ),
            Err(e) => Err(e),
        }
    }
}

/// What resolution yields on a whole program: the global symbols of the
/// `in` parameters then the `out` parameters, and one entry per function
/// holding its local symbols. Offsets and sizes are left for code
/// generation.
pub open spec fn spec_resolve(p: ProgramV) -> Result<ProgramDataV, ResolveErrorV> {
    match spec_resolve_params(p.in_parameters, Seq::empty()) {
        Ok(g1) => match spec_resolve_params(p.out_parameters, g1) {
            Ok(globals) => {
                let fns0 = spec_declare_fns(p.functions, Seq::empty());
                match spec_resolve_fns(p.functions, fns0, globals, fns0) {
                    Ok(fns) => Ok(ProgramDataV {
                        functions: fns,
                        global_symbols: globals,
                        min_stack_size: 0,
                        static_section_size: 0,
                    }),
                    Err(e) => Err(e),
                }
            },
            Err(e) => Err(e),
        },
        Err(e) => Err(e),
    }
}

/// Resolves a parsed program, exactly as `spec_resolve` describes.
#[verifier::rlimit(100)]
#[verifier::loop_isolation(false)]
pub fn resolve(program: &Program) -> (r: Result<ProgramData, ResolveError>)
    ensures
        match r {
            Ok(data) => spec_resolve(program@) == Ok::<ProgramDataV, ResolveErrorV>(data@),
            Err(e) => spec_resolve(program@) == Err::<ProgramDataV, ResolveErrorV>(e@),
        },
{
    let ghost pv = program@;
    let mut globals: Vec<(Ident, SymbolMeta)> = Vec::new();

    let n_in = program.in_parameters.len();
    proof {
        assert(pv.in_parameters.skip(0) =~= pv.in_parameters);
        assert(syms_view(globals@) =~= Seq::<(Seq<char>, SymbolMetaV)>::empty());
    }
    for i in 0..n_in
        invariant
            n_in == program.in_parameters@.len(),
            spec_resolve_params(pv.in_parameters, Seq::empty()) == spec_resolve_params(
                pv.in_parameters.skip(i as int),
                syms_view(globals@),
            ),
        decreases n_in - i,
    {
        proof {
            assert(pv.in_parameters.skip(i as int)[0] == pv.in_parameters[i as int]);
            assert(pv.in_parameters.skip(i as int).drop_first() =~= pv.in_parameters.skip(i + 1));
            assert(pv.in_parameters[i as int] == program.in_parameters@[i as int]@);
        }
        let param = &program.in_parameters[i];
        let ty = match resolve_type(&param.type_kind.item) {
            Ok(t) => t,
            Err(e) => {
                return Err(e);
            },
        };
        insert_sym_table(
            &mut globals,
            param.ident.item.clone(),
            SymbolMeta { type_kind: ty, stack_offset: None, is_static: true },
        );
    }
    proof {
        assert(pv.in_parameters.skip(n_in as int).len() == 0);
    }

    let n_out = program.out_parameters.len();
    proof {
        assert(pv.out_parameters.skip(0) =~= pv.out_parameters);
    }
    for i in 0..n_out
        invariant
            n_out == program.out_parameters@.len(),
            spec_resolve_params(pv.in_parameters, Seq::empty()) is Ok,
            spec_resolve_params(
                pv.out_parameters,
                spec_resolve_params(pv.in_parameters, Seq::empty())->Ok_0,
            ) == spec_resolve_params(pv.out_parameters.skip(i as int), syms_view(globals@)),
        decreases n_out - i,
    {
        proof {
            assert(pv.out_parameters.skip(i as int)[0] == pv.out_parameters[i as int]);
            assert(pv.out_parameters.skip(i as int).drop_first() =~= pv.out_parameters.skip(
                i + 1,
            ));
            assert(pv.out_parameters[i as int] == program.out_parameters@[i as int]@);
        }
        let param = &program.out_parameters[i];
        let ty = match resolve_type(&param.type_kind.item) {
            Ok(t) => t,
            Err(e) => {
                return Err(e);
            },
        };
        insert_sym_table(
            &mut globals,
            param.ident.item.clone(),
            SymbolMeta { type_kind: ty, stack_offset: None, is_static: true },
        );
    }
    proof {
        assert(pv.out_parameters.skip(n_out as int).len() == 0);
    }

    let mut fns0: Vec<(Ident, FuncMeta)> = Vec::new();
    let mut table: Vec<(Ident, FuncMeta)> = Vec::new();
    let n_fns = program.functions.len();
    proof {
        assert(pv.functions.skip(0) =~= pv.functions);
        assert(funcs_view(fns0@) =~= Seq::<(Seq<char>, FuncMetaV)>::empty());
    }
    for i in 0..n_fns
        invariant
            n_fns == program.functions@.len(),
            funcs_view(fns0@) == funcs_view(table@),
            spec_declare_fns(pv.functions, Seq::empty()) == spec_declare_fns(
                pv.functions.skip(i as int),
                funcs_view(fns0@),
            ),
        decreases n_fns - i,
    {
        proof {
            assert(pv.functions.skip(i as int)[0] == pv.functions[i as int]);
            assert(pv.functions.skip(i as int).drop_first() =~= pv.functions.skip(i + 1));
            assert(pv.functions[i as int] == program.functions@[i as int]@);
        }
        let m1 = FuncMeta::new();
        let m2 = FuncMeta::new();
        proof {
            assert(m1@.symbols =~= Seq::<(Seq<char>, SymbolMetaV)>::empty());
            assert(m2@.symbols =~= Seq::<(Seq<char>, SymbolMetaV)>::empty());
            assert(m1@ == (FuncMetaV { symbols: Seq::empty(), address: None }));
            assert(m2@ == (FuncMetaV { symbols: Seq::empty(), address: None }));
        }
        insert_func_table(&mut fns0, program.functions[i].ident.item.clone(), m1);
        insert_func_table(&mut table, program.functions[i].ident.item.clone(), m2);
    }
    proof {
        assert(pv.functions.skip(n_fns as int).len() == 0);
    }

    let ghost fns0v = funcs_view(fns0@);
    for i in 0..n_fns
        invariant
            n_fns == program.functions@.len(),
            fns0v == funcs_view(fns0@),
            spec_resolve_fns(pv.functions, fns0v, syms_view(globals@), fns0v)
                == spec_resolve_fns(
                pv.functions.skip(i as int),
                funcs_view(table@),
                syms_view(globals@),
                fns0v,
            ),
        decreases n_fns - i,
    {
        proof {
            assert(pv.functions.skip(i as int)[0] == pv.functions[i as int]);
            assert(pv.functions.skip(i as int).drop_first() =~= pv.functions.skip(i + 1));
            assert(pv.functions[i as int] == program.functions@[i as int]@);
        }
        let f = &program.functions[i];
        let mut locals: Vec<(Ident, SymbolMeta)> = Vec::new();
        let ghost stmtsv = pv.functions[i as int].statements;
        let n_sts = f.statements.len();
        proof {
            assert(stmtsv.skip(0) =~= stmtsv);
            assert(syms_view(locals@) =~= Seq::<(Seq<char>, SymbolMetaV)>::empty());
            assert(stmtsv.len() == f.statements@.len());
        }
        for j in 0..n_sts
            invariant
                n_sts == f.statements@.len(),
                f == &program.functions[i as int],
                stmtsv == pv.functions[i as int].statements,
                fns0v == funcs_view(fns0@),
                spec_resolve_stmts(stmtsv, Seq::empty(), syms_view(globals@), fns0v)
                    == spec_resolve_stmts(
                    stmtsv.skip(j as int),
                    syms_view(locals@),
                    syms_view(globals@),
                    fns0v,
                ),
            decreases n_sts - j,
        {
            proof {
                assert(stmtsv.skip(j as int)[0] == stmtsv[j as int]);
                assert(stmtsv.skip(j as int).drop_first() =~= stmtsv.skip(j + 1));
                assert(stmtsv[j as int] == f.statements@[j as int]@);
            }
            match &f.statements[j] {
                Statement::Assignment(name, e) => {
                    let ty = match type_of_expr(e, &locals, &globals, &fns0) {
                        Ok(t) => t,
                        Err(er) => {
                            return Err(er);
                        },
                    };
                    match lookup_sym_table(&globals, &name.item) {
                        Some(g) => {
                            let same = g.type_kind.matches(&ty);
                            if !same {
                                return Err(ResolveError::TypeMismatch);
                            }
                        },
                        None => {
                            insert_sym_table(
                                &mut locals,
                                name.item.clone(),
                                SymbolMeta {
                                    type_kind: ty,
                                    stack_offset: None,
                                    is_static: false,
                                },
                            );
                        },
                    }
                },
                Statement::Return(e) => {
                    match type_of_expr(e, &locals, &globals, &fns0) {
                        Ok(_) => (),
                        Err(er) => {
                            return Err(er);
                        },
                    }
                },
            }
        }
        proof {
            assert(stmtsv.skip(n_sts as int).len() == 0);
        }
        insert_func_table(
            &mut table,
            f.ident.item.clone(),
            FuncMeta { symbols: locals, address: None },
        );
    }
    proof {
        assert(pv.functions.skip(n_fns as int).len() == 0);
    }

    Ok(
        ProgramData {
            functions: table,
            global_symbols: globals,
            min_stack_size: 0,
            static_section_size: 0,
        },
    )
}

/// Computes the types of an argument list, exactly as `spec_types_of`
/// describes.
#[verifier::rlimit(50)]
#[verifier::loop_isolation(false)]
pub fn types_of_exprs(
    args: &Vec<Expr>,
    locals: &Vec<(Ident, SymbolMeta)>,
    globals: &Vec<(Ident, SymbolMeta)>,
    fns: &Vec<(Ident, FuncMeta)>,
) -> (r: Result<Vec<TypeKind>, ResolveError>)
    ensures
        match r {
            Ok(tys) => spec_types_of(
                crate::ast::exprs_view(args@),
                syms_view(locals@),
                syms_view(globals@),
                funcs_view(fns@),
            ) == Ok::<Seq<TypeKindV>, ResolveErrorV>(Seq::new(tys@.len(), |i: int| tys@[i]@)),
            Err(er) => spec_types_of(
                crate::ast::exprs_view(args@),
                syms_view(locals@),
                syms_view(globals@),
                funcs_view(fns@),
            ) == Err::<Seq<TypeKindV>, ResolveErrorV>(er@),
        },
{
    let ghost lv = syms_view(locals@);
    let ghost gv = syms_view(globals@);
    let ghost fv = funcs_view(fns@);
    let ghost argsv = crate::ast::exprs_view(args@);
    let mut tys: Vec<TypeKind> = Vec::new();
    let n = args.len();
    proof {
        lemma_exprs_view_len(args@);
        assert(argsv.skip(0) =~= argsv);
        assert(Seq::new(tys@.len(), |i: int| tys@[i]@) =~= Seq::<TypeKindV>::empty());
    }
    for i in 0..n
        invariant
            n == args@.len(),
            spec_types_of(argsv, lv, gv, fv) == (match spec_types_of(
                argsv.skip(i as int),
                lv,
                gv,
                fv,
            ) {
                Ok(rest) => Ok::<Seq<TypeKindV>, ResolveErrorV>(
                    Seq::new(tys@.len(), |t: int| tys@[t]@) + rest,
                ),
                Err(er) => Err::<Seq<TypeKindV>, ResolveErrorV>(er),
            }),
        decreases n - i,
    {
        proof {
            lemma_exprs_view_index(args@, i as int);
            assert(argsv.skip(i as int)[0] == argsv[i as int]);
            assert(argsv.skip(i as int).subrange(1, argsv.skip(i as int).len() as int)
                =~= argsv.skip(i + 1));
        }
        let t = match type_of_expr(&args[i], locals, globals, fns) {
            Ok(t) => t,
            Err(er) => {
                return Err(er);
            },
        };
        let ghost tys_old = Seq::new(tys@.len(), |t2: int| tys@[t2]@);
        tys.push(t);
        proof {
            assert(Seq::new(tys@.len(), |t2: int| tys@[t2]@) =~= tys_old.push(
                tys@[tys@.len() - 1]@,
            ));
            if let Ok(rest) = spec_types_of(argsv.skip(i + 1), lv, gv, fv) {
                assert(tys_old + (seq![tys@[tys@.len() - 1]@] + rest) =~= Seq::new(
                    tys@.len(),
                    |t2: int| tys@[t2]@,
                ) + rest);
            }
        }
    }
    proof {
        assert(argsv.skip(n as int).len() == 0);
        assert(Seq::new(tys@.len(), |t2: int| tys@[t2]@) + Seq::<TypeKindV>::empty() =~= Seq::new(
            tys@.len(),
            |t2: int| tys@[t2]@,
        ));
    }
    Ok(tys)
}

} // verus!
