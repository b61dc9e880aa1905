//! An early, experimental inlining pass over the syntax tree.
//!
//! The pass keeps only the entry function, splicing the bodies of the
//! functions it calls in place of the calls. Temporary names are drawn from
//! an explicit counter threaded through the pass; nothing ambient is
//! mutated.

use crate::ast::{
    expr_view, exprs_view, Expr, ExprV, FunctionDeclaration, FunctionDeclarationV, Ident, Program,
    ProgramV, Spanned, Statement, StatementV, Symbol, spec_find_function,
};
use crate::parser::stmts_view;
use crate::scanner::chars_to_string;
use vstd::prelude::*;

verus! {

/// The ten decimal digit characters in order.
pub open spec fn digits_table() -> Seq<char> {
    seq!['0', '1', '2', '3', '4', '5', '6', '7', '8', '9']
}

/// The decimal digits of a number, most significant first.
pub open spec fn spec_dec_chars(n: nat) -> Seq<char>
    decreases n,
{
    if n < 10 {
        seq![digits_table()[n as int]]
    } else {
        spec_dec_chars(n / 10).push(digits_table()[(n % 10) as int])
    }
}

/// The name of the temporary with the given counter value.
pub open spec fn spec_tmp_name(n: nat) -> Seq<char> {
    seq!['t', 'm', 'p', '_'] + spec_dec_chars(n)
}

/// A digit string has at least one character, and at least two once the
/// number needs them.
proof fn lemma_dec_chars_len(n: nat)
    ensures
        spec_dec_chars(n).len() >= 1,
        n >= 10 ==> spec_dec_chars(n).len() >= 2,
    decreases n,
{
    if n >= 10 {
        lemma_dec_chars_len(n / 10);
    }
}

/// The digit characters are consecutive from `'0'`.
proof fn lemma_digit_char_val(d: int)
    requires
        0 <= d < 10,
    ensures
        digits_table()[d] as int == '0' as int + d,
{
    if d == 0 {
        assert(digits_table()[0] == '0');
    } else if d == 1 {
        assert(digits_table()[1] == '1');
    } else if d == 2 {
        assert(digits_table()[2] == '2');
    } else if d == 3 {
        assert(digits_table()[3] == '3');
    } else if d == 4 {
        assert(digits_table()[4] == '4');
    } else if d == 5 {
        assert(digits_table()[5] == '5');
    } else if d == 6 {
        assert(digits_table()[6] == '6');
    } else if d == 7 {
        assert(digits_table()[7] == '7');
    } else if d == 8 {
        assert(digits_table()[8] == '8');
    } else {
        assert(digits_table()[9] == '9');
    }
}

/// A digit string determines its number: two counters never share one.
proof fn lemma_dec_chars_injective(m: nat, n: nat)
    requires
        spec_dec_chars(m) == spec_dec_chars(n),
    ensures
        m == n,
    decreases m,
{
    lemma_dec_chars_len(m);
    lemma_dec_chars_len(n);
    if m < 10 && n < 10 {
        assert(spec_dec_chars(m)[0] == digits_table()[m as int]);
        assert(spec_dec_chars(n)[0] == digits_table()[n as int]);
        lemma_digit_char_val(m as int);
        lemma_digit_char_val(n as int);
    } else if m < 10 {
        assert(spec_dec_chars(m).len() == 1);
        assert(false);
    } else if n < 10 {
        assert(spec_dec_chars(n).len() == 1);
        assert(false);
    } else {
        let cm = spec_dec_chars(m);
        assert(cm.last() == digits_table()[(m % 10) as int]);
        assert(cm.last() == digits_table()[(n % 10) as int]);
        lemma_digit_char_val((m % 10) as int);
        lemma_digit_char_val((n % 10) as int);
        assert(m % 10 == n % 10);
        assert(cm.drop_last() =~= spec_dec_chars((m / 10) as nat));
        assert(spec_dec_chars(n).drop_last() =~= spec_dec_chars((n / 10) as nat));
        lemma_dec_chars_injective((m / 10) as nat, (n / 10) as nat);
    }
}

/// Two counter values never name the same temporary.
pub proof fn lemma_tmp_name_injective(m: nat, n: nat)
    requires
        spec_tmp_name(m) == spec_tmp_name(n),
    ensures
        m == n,
{
    assert(spec_tmp_name(m).skip(4) =~= spec_dec_chars(m));
    assert(spec_tmp_name(n).skip(4) =~= spec_dec_chars(n));
    lemma_dec_chars_injective(m, n);
}

fn digit_char(d: u64) -> (r: char)
    requires
        d < 10,
    ensures
        r == digits_table()[d as int],
{
    if d == 0 {
        '0'
    } else if d == 1 {
        '1'
    } else if d == 2 {
        '2'
    } else if d == 3 {
        '3'
    } else if d == 4 {
        '4'
    } else if d == 5 {
        '5'
    } else if d == 6 {
        '6'
    } else if d == 7 {
        '7'
    } else if d == 8 {
        '8'
    } else {
        '9'
    }
}

fn dec_chars(n: u64) -> (r: Vec<char>)
    ensures
        r@ == spec_dec_chars(n as nat),
    decreases n,
{
    if n < 10 {
        let mut v: Vec<char> = Vec::new();
        v.push(digit_char(n));
        proof {
            assert(v@ =~= spec_dec_chars(n as nat));
        }
        v
    } else {
        let mut v = dec_chars(n / 10);
        v.push(digit_char(n % 10));
        proof {
            assert(v@ =~= spec_dec_chars(n as nat));
        }
        v
    }
}

/// Builds the temporary's name for a counter value.
pub fn tmp_name(n: u64) -> (r: Ident)
    ensures
        r@ == spec_tmp_name(n as nat),
{
    let mut v: Vec<char> = vec!['t', 'm', 'p', '_'];
    let mut d = dec_chars(n);
    let nd = d.len();
    for i in 0..nd
        invariant
            nd == d@.len(),
            d@ == spec_dec_chars(n as nat),
            v@ == seq!['t', 'm', 'p', '_'] + d@.take(i as int),
        decreases nd - i,
    {
        v.push(d[i]);
        proof {
            assert(v@ =~= seq!['t', 'm', 'p', '_'] + d@.take(i + 1));
        }
    }
    proof {
        assert(v@ =~= spec_tmp_name(n as nat));
    }
    chars_to_string(&v)
}

/// An equal copy of an expression tree.
#[verifier::loop_isolation(false)]
pub fn clone_expr(e: &Expr) -> (r: Expr)
    ensures
        r@ == e@,
    decreases *e,
{
    match e {
        Expr::Literal(l) => Expr::Literal(Spanned::new(l.item, l.from, l.to)),
        Expr::Symbol(s) => Expr::Symbol(Symbol { ident: s.ident.clone() }),
        Expr::UnaryOp(op, e1) => Expr::UnaryOp(*op, Box::new(clone_expr(e1))),
        Expr::BinaryOp(op, a, b) => Expr::BinaryOp(
            *op,
            Box::new(clone_expr(a)),
            Box::new(clone_expr(b)),
        ),
        Expr::FuncCall(name, args) => {
            let mut out: Vec<Expr> = Vec::new();
            let n = args.len();
            proof {
                crate::compiler::resolve_types::lemma_exprs_view_len(args@);
                assert(exprs_view(out@) =~= Seq::<ExprV>::empty());
            }
            for i in 0..n
                invariant
                    n == args@.len(),
                    exprs_view(out@) == exprs_view(args@).take(i as int),
                decreases n - i,
            {
                proof {
                    crate::compiler::resolve_types::lemma_exprs_view_index(args@, i as int);
                    assert(decreases_to!(*e => *args));
                    assert(decreases_to!(*args => args@));
                    assert(decreases_to!(args@ => args@[i as int]));
                }
                let ghost out_old = out@;
                let c = clone_expr(&args[i]);
                out.push(c);
                proof {
                    crate::ast::lemma_exprs_view_push(out_old, out@[out@.len() - 1]);
                    assert(exprs_view(out@) =~= exprs_view(args@).take(i + 1));
                }
            }
            proof {
                assert(exprs_view(args@).take(n as int) =~= exprs_view(args@));
            }
            Expr::FuncCall(Spanned::new(name.item.clone(), name.from, name.to), out)
        },
    }
}

/// An equal copy of a statement.
pub fn clone_statement(st: &Statement) -> (r: Statement)
    ensures
        r@ == st@,
{
    match st {
        Statement::Assignment(name, e) => Statement::Assignment(
            Spanned::new(name.item.clone(), name.from, name.to),
            clone_expr(e),
        ),
        Statement::Return(e) => Statement::Return(clone_expr(e)),
    }
}

/// What inlining one expression yields: statements to insert before the
/// current one, the replacement expression, and the advanced counter. A
/// call is replaced by the callee's body with its returns turned into
/// assignments to a fresh temporary; anything else is left alone. `None`
/// when the callee is not declared.
pub open spec fn spec_inline_expr(pv: ProgramV, ev: ExprV, counter: nat) -> Option<
    (Seq<StatementV>, ExprV, nat),
> {
    match ev {
        ExprV::FuncCall(name, _args) => match spec_find_function(pv.functions, name) {
            Some(f) => {
                let tmp = spec_tmp_name((counter + 1) as nat);
                Some(
                    (
                        f.statements.map_values(
                            |st: StatementV|
                                match st {
                                    StatementV::Return(e) => StatementV::Assignment(tmp, e),
                                    other => other,
                                },
                        ),
                        ExprV::Symbol(tmp),
                        (counter + 1) as nat,
                    ),
                )
            },
            None => None,
        },
        other => Some((Seq::empty(), other, counter)),
    }
}

/// Whether an expression mentions the identifier: as a symbol, as a
/// callee's name, or inside an argument.
pub open spec fn spec_expr_mentions(e: ExprV, w: Seq<char>) -> bool
    decreases e,
{
    match e {
        ExprV::Symbol(name) => name == w,
        ExprV::FuncCall(name, args) => name == w || exists|i: int|
            0 <= i < args.len() && spec_expr_mentions(#[trigger] args[i], w),
        ExprV::UnaryOp(_, e1) => spec_expr_mentions(*e1, w),
        ExprV::BinaryOp(_, a, b) => spec_expr_mentions(*a, w) || spec_expr_mentions(*b, w),
        ExprV::Literal(_) => false,
    }
}

/// Whether a statement mentions the identifier, as an assignment's target
/// or anywhere in its expression.
pub open spec fn spec_stmt_mentions(st: StatementV, w: Seq<char>) -> bool {
    match st {
        StatementV::Assignment(name, e) => name == w || spec_expr_mentions(e, w),
        StatementV::Return(e) => spec_expr_mentions(e, w),
    }
}

/// Whether the program mentions the identifier anywhere: as a parameter or
/// function name, an assignment target, a symbol, or a callee.
pub open spec fn spec_program_mentions(pv: ProgramV, w: Seq<char>) -> bool {
    (exists|i: int|
        0 <= i < pv.in_parameters.len() && (#[trigger] pv.in_parameters[i]).ident == w) || (exists|
        i: int,
    |
        0 <= i < pv.out_parameters.len() && (#[trigger] pv.out_parameters[i]).ident == w) || (
    exists|i: int|
        0 <= i < pv.functions.len() && ((#[trigger] pv.functions[i]).ident == w || exists|j: int|
            0 <= j < pv.functions[i].statements.len() && spec_stmt_mentions(
                #[trigger] pv.functions[i].statements[j],
                w,
            )))
}

/// Whether a word has the reserved shape of a temporary's name.
pub open spec fn spec_is_tmp_shaped(w: Seq<char>) -> bool {
    exists|n: nat| w == spec_tmp_name(n)
}

/// The temporary that inlining a call introduces is fresh: it differs from
/// every identifier the program mentions, and from every temporary an
/// earlier counter value named. This holds of programs that mention no
/// `tmp_`-shaped identifier of their own; a source program that itself
/// spells such a name is excluded.
pub proof fn lemma_inline_temp_fresh(pv: ProgramV, ev: ExprV, counter: nat)
    requires
        forall|w: Seq<char>| spec_program_mentions(pv, w) ==> !spec_is_tmp_shaped(w),
        ev is FuncCall,
        spec_inline_expr(pv, ev, counter) is Some,
    ensures
        spec_inline_expr(pv, ev, counter)->Some_0.1 == ExprV::Symbol(
            spec_tmp_name((counter + 1) as nat),
        ),
        !spec_program_mentions(pv, spec_tmp_name((counter + 1) as nat)),
        forall|k: nat|
            k <= counter ==> #[trigger] spec_tmp_name(k) != spec_tmp_name((counter + 1) as nat),
{
    let tmp = spec_tmp_name((counter + 1) as nat);
    assert(spec_is_tmp_shaped(tmp)) by {
        assert(tmp == spec_tmp_name((counter + 1) as nat));
    }
    assert forall|k: nat| k <= counter implies spec_tmp_name(k) != tmp by {
        if spec_tmp_name(k) == tmp {
            lemma_tmp_name_injective(k, (counter + 1) as nat);
        }
    }
}

/// Inlines one expression, exactly as `spec_inline_expr` describes.
#[verifier::loop_isolation(false)]
pub fn inline_expr(program: &Program, expr: &Expr, counter: u64) -> (r: (
    Vec<Statement>,
    Expr,
    u64,
))
    requires
        spec_inline_expr(program@, expr@, counter as nat) is Some,
        counter < 0xFFFF_FFFF,
    ensures
        (stmts_view(r.0@), r.1@, r.2 as nat) == spec_inline_expr(
            program@,
            expr@,
            counter as nat,
        )->Some_0,
{
    match expr {
        Expr::FuncCall(name, _args) => {
            let tmp = tmp_name(counter + 1);
            let f = match program.get_function(name.item.clone()) {
                Some(f) => f,
                None => {
                    proof {
                        assert(false);
                    }
                    vstd::pervasive::unreached()
                },
            };
            let mut out: Vec<Statement> = Vec::new();
            let n = f.statements.len();
            let ghost fv = spec_find_function(program@.functions, name.item@)->Some_0;
            let ghost mapped = fv.statements.map_values(
                |st: StatementV|
                    match st {
                        StatementV::Return(e) => StatementV::Assignment(
                            spec_tmp_name((counter + 1) as nat),
                            e,
                        ),
                        other => other,
                    },
            );
            proof {
                assert(stmts_view(out@) =~= mapped.take(0));
            }
            for i in 0..n
                invariant
                    n == f.statements@.len(),
                    stmts_view(out@) == mapped.take(i as int),
                decreases n - i,
            {
                let st = match &f.statements[i] {
                    Statement::Return(e) => Statement::Assignment(
                        Spanned::new(tmp.clone(), name.from, name.to),
                        clone_expr(e),
                    ),
                    other => clone_statement(other),
                };
                let ghost out_old = out@;
                out.push(st);
                proof {
                    crate::parser::lemma_stmts_view_push(out_old, out@[out@.len() - 1]);
                    assert(fv.statements[i as int] == f.statements@[i as int]@);
                    assert(stmts_view(out@) =~= mapped.take(i + 1));
                }
            }
            proof {
                assert(mapped.take(n as int) =~= mapped);
            }
            (out, Expr::Symbol(Symbol { ident: tmp }), counter + 1)
        },
        other => (Vec::new(), clone_expr(other), counter),
    }
}

/// Inlines the top level of every assigned expression in a statement list,
/// threading the temporary counter; `None` when a called function is not
/// declared.
pub open spec fn spec_inline_stmts(pv: ProgramV, sts: Seq<StatementV>, counter: nat) -> Option<
    (Seq<StatementV>, nat),
>
    decreases sts.len(),
{
    if sts.len() == 0 {
        Some((Seq::empty(), counter))
    } else {
        match sts[0] {
            StatementV::Assignment(name, e) => match spec_inline_expr(pv, e, counter) {
                Some((ins, e2, c2)) => match spec_inline_stmts(pv, sts.drop_first(), c2) {
                    Some((rest, c3)) => Some(
                        (ins.push(StatementV::Assignment(name, e2)) + rest, c3),
                    ),
                    None => None,
                },
                None => None,
            },
            other => match spec_inline_stmts(pv, sts.drop_first(), counter) {
                Some((rest, c2)) => Some((seq![other] + rest, c2)),
                None => None,
            },
        }
    }
}

/// The entry function's name.
pub open spec fn main_name() -> Seq<char> {
    seq!['m', 'a', 'i', 'n']
}

/// Keeps only the functions named `main`, inlining their bodies, and
/// threads the counter across them.
pub open spec fn spec_inline_fns(
    pv: ProgramV,
    fs: Seq<FunctionDeclarationV>,
    counter: nat,
) -> Option<(Seq<FunctionDeclarationV>, nat)>
    decreases fs.len(),
{
    if fs.len() == 0 {
        Some((Seq::empty(), counter))
    } else if fs[0].ident != main_name() {
        spec_inline_fns(pv, fs.drop_first(), counter)
    } else {
        match spec_inline_stmts(pv, fs[0].statements, counter) {
            Some((sts, c2)) => match spec_inline_fns(pv, fs.drop_first(), c2) {
                Some((rest, c3)) => Some(
                    (
                        seq![
                            FunctionDeclarationV {
                                ident: fs[0].ident,
                                param_types: fs[0].param_types,
                                statements: sts,
                            },
                        ] + rest,
                        c3,
                    ),
                ),
                None => None,
            },
            None => None,
        }
    }
}

/// What the pass yields on a whole program: the entry functions inlined,
/// everything else dropped, the parameter declarations kept.
pub open spec fn spec_inline_pass(pv: ProgramV) -> Option<ProgramV> {
    match spec_inline_fns(pv, pv.functions, 0) {
        Some((fs, _)) => Some(
            ProgramV {
                functions: fs,
                out_parameters: pv.out_parameters,
                in_parameters: pv.in_parameters,
            },
        ),
        None => None,
    }
}

/// The counter never decreases along the statement fold.
pub proof fn lemma_inline_stmts_counter(pv: ProgramV, sts: Seq<StatementV>, counter: nat)
    ensures
        spec_inline_stmts(pv, sts, counter) matches Some(r) ==> counter <= r.1,
    decreases sts.len(),
{
    if sts.len() > 0 {
        match sts[0] {
            StatementV::Assignment(name, e) => {
                if let Some((ins, e2, c2)) = spec_inline_expr(pv, e, counter) {
                    lemma_inline_stmts_counter(pv, sts.drop_first(), c2);
                }
            },
            _ => {
                lemma_inline_stmts_counter(pv, sts.drop_first(), counter);
            },
        }
    }
}

/// The counter never decreases along the function fold.
pub proof fn lemma_inline_fns_counter(pv: ProgramV, fs: Seq<FunctionDeclarationV>, counter: nat)
    ensures
        spec_inline_fns(pv, fs, counter) matches Some(r) ==> counter <= r.1,
    decreases fs.len(),
{
    if fs.len() > 0 {
        if fs[0].ident != main_name() {
            lemma_inline_fns_counter(pv, fs.drop_first(), counter);
        } else {
            if let Some((sts, c2)) = spec_inline_stmts(pv, fs[0].statements, counter) {
                lemma_inline_stmts_counter(pv, fs[0].statements, counter);
                lemma_inline_fns_counter(pv, fs.drop_first(), c2);
            }
        }
    }
}

/// Runs the inlining pass, exactly as `spec_inline_pass` describes.
#[verifier::rlimit(100)]
#[verifier::loop_isolation(false)]
pub fn inline_pass(program: &Program) -> (r: Program)
    requires
        spec_inline_pass(program@) is Some,
        (spec_inline_fns(program@, program@.functions, 0) matches Some(t) && t.1
            < 0xFFFF_FFFF),
    ensures
        r@ == spec_inline_pass(program@)->Some_0,
{
    let ghost pv = program@;
    let ghost cfinal = spec_inline_fns(pv, pv.functions, 0)->Some_0.1;
    let mut counter: u64 = 0;
    let mut functions: Vec<FunctionDeclaration> = Vec::new();
    let main_key = String::from_str("main");
    proof {
        reveal_strlit("main");
        assert(main_key@ =~= main_name());
        assert(pv.functions.skip(0) =~= pv.functions);
        assert(crate::parser::fns_view(functions@) =~= Seq::<FunctionDeclarationV>::empty());
    }
    let n = program.functions.len();
    for i in 0..n
        invariant
            n == program.functions@.len(),
            main_key@ == main_name(),
            counter <= cfinal,
            cfinal < 0xFFFF_FFFF,
            spec_inline_fns(pv, pv.functions, 0) == (match spec_inline_fns(
                pv,
                pv.functions.skip(i as int),
                counter as nat,
            ) {
                Some((rest, c)) => Some(
                    (crate::parser::fns_view(functions@) + rest, c),
                ),
                None => None,
            }),
        decreases n - i,
    {
        proof {
            assert(pv.functions.skip(i as int)[0] == pv.functions[i as int]);
            assert(pv.functions.skip(i as int).drop_first() =~= pv.functions.skip(i + 1));
            assert(pv.functions[i as int] == program.functions@[i as int]@);
        }
        let f = &program.functions[i];
        if f.ident.item == main_key {
        let ghost stmtsv = pv.functions[i as int].statements;
        proof {
            lemma_inline_stmts_counter(pv, stmtsv, counter as nat);
            if let Some((sts_s, c2)) = spec_inline_stmts(pv, stmtsv, counter as nat) {
                lemma_inline_fns_counter(pv, pv.functions.skip(i + 1), c2);
            }
            assert(stmtsv.skip(0) =~= stmtsv);
        }
        let mut out_sts: Vec<Statement> = Vec::new();
        proof {
            assert(stmts_view(out_sts@) =~= Seq::<StatementV>::empty());
        }
        let n_s = f.statements.len();
        let ghost c_entry = counter as nat;
        for j in 0..n_s
            invariant
                n_s == f.statements@.len(),
                f == &program.functions[i as int],
                stmtsv == pv.functions[i as int].statements,
                counter <= cfinal,
                spec_inline_stmts(pv, stmtsv, c_entry) == (match spec_inline_stmts(
                    pv,
                    stmtsv.skip(j as int),
                    counter as nat,
                ) {
                    Some((rest, c)) => Some((stmts_view(out_sts@) + rest, c)),
                    None => None,
                }),
            decreases n_s - j,
        {
            proof {
                assert(stmtsv.skip(j as int)[0] == stmtsv[j as int]);
                assert(stmtsv.skip(j as int).drop_first() =~= stmtsv.skip(j + 1));
                assert(stmtsv[j as int] == f.statements@[j as int]@);
            }
            match &f.statements[j] {
                Statement::Assignment(name, e) => {
                    proof {
                        if let Some((ins, e2, c2)) = spec_inline_expr(
                            pv,
                            expr_view(*e),
                            counter as nat,
                        ) {
                            lemma_inline_stmts_counter(pv, stmtsv.skip(j + 1), c2);
                        }
                    }
                    let (mut insert, e2, c2) = inline_expr(program, e, counter);
                    counter = c2;
                    let ghost ins_raw = insert@;
                    insert.push(
                        Statement::Assignment(
                            Spanned::new(name.item.clone(), name.from, name.to),
                            e2,
                        ),
                    );
                    proof {
                        crate::parser::lemma_stmts_view_push(
                            ins_raw,
                            insert@[insert@.len() - 1],
                        );
                    }
                    let n_ins = insert.len();
                    let ghost out_old = out_sts@;
                    for k in 0..n_ins
                        invariant
                            n_ins == insert@.len(),
                            stmts_view(out_sts@) == stmts_view(out_old) + stmts_view(
                                insert@,
                            ).take(k as int),
                        decreases n_ins - k,
                    {
                        let ghost out_mid = out_sts@;
                        out_sts.push(clone_statement(&insert[k]));
                        proof {
                            crate::parser::lemma_stmts_view_push(
                                out_mid,
                                out_sts@[out_sts@.len() - 1],
                            );
                            assert(stmts_view(out_sts@) =~= stmts_view(out_old) + stmts_view(
                                insert@,
                            ).take(k + 1));
                        }
                    }
                    proof {
                        assert(stmts_view(insert@).take(n_ins as int) =~= stmts_view(insert@));
                        if let Some((rest, c)) = spec_inline_stmts(
                            pv,
                            stmtsv.skip(j + 1),
                            counter as nat,
                        ) {
                            assert((stmts_view(out_old) + stmts_view(insert@)) + rest
                                =~= stmts_view(out_old) + (stmts_view(insert@) + rest));
                        }
                    }
                },
                other => {
                    let ghost out_old = out_sts@;
                    out_sts.push(clone_statement(other));
                    proof {
                        crate::parser::lemma_stmts_view_push(
                            out_old,
                            out_sts@[out_sts@.len() - 1],
                        );
                        if let Some((rest, c)) = spec_inline_stmts(
                            pv,
                            stmtsv.skip(j + 1),
                            counter as nat,
                        ) {
                            assert(stmts_view(out_old) + (seq![stmtsv[j as int]] + rest)
                                =~= stmts_view(out_sts@) + rest);
                        }
                    }
                },
            }
        }
        proof {
            assert(stmtsv.skip(n_s as int).len() == 0);
            assert(stmts_view(out_sts@) + Seq::<StatementV>::empty() =~= stmts_view(out_sts@));
        }
        let mut ptypes: Vec<Spanned<Ident>> = Vec::new();
        let n_p = f.param_types.len();
        for k in 0..n_p
            invariant
                n_p == f.param_types@.len(),
                f == &program.functions[i as int],
                Seq::new(ptypes@.len(), |t: int| ptypes@[t].item@) == Seq::new(
                    f.param_types@.len(),
                    |t: int| f.param_types@[t].item@,
                ).take(k as int),
            decreases n_p - k,
        {
            let pt = &f.param_types[k];
            ptypes.push(Spanned::new(pt.item.clone(), pt.from, pt.to));
            proof {
                assert(Seq::new(ptypes@.len(), |t: int| ptypes@[t].item@) =~= Seq::new(
                    f.param_types@.len(),
                    |t: int| f.param_types@[t].item@,
                ).take(k + 1));
            }
        }
        let ghost fns_old = functions@;
        functions.push(
            FunctionDeclaration {
                ident: Spanned::new(f.ident.item.clone(), f.ident.from, f.ident.to),
                param_types: ptypes,
                statements: out_sts,
            },
        );
        proof {
            assert(Seq::new(
                program.functions@[i as int].param_types@.len(),
                |t: int| program.functions@[i as int].param_types@[t].item@,
            ).take(n_p as int) =~= pv.functions[i as int].param_types);
            assert(functions@[functions@.len() - 1]@.param_types =~= pv.functions[
                i as int
            ].param_types);
            assert(crate::parser::fns_view(functions@) =~= crate::parser::fns_view(
                fns_old,
            ).push(functions@[functions@.len() - 1]@));
            if let Some((rest, c)) = spec_inline_fns(pv, pv.functions.skip(i + 1), counter as nat) {
                assert(crate::parser::fns_view(fns_old) + (seq![
                    functions@[functions@.len() - 1]@,
                ] + rest) =~= crate::parser::fns_view(functions@) + rest);
            }
        }
        }
    }
    proof {
        assert(pv.functions.skip(n as int).len() == 0);
        assert(crate::parser::fns_view(functions@) + Seq::<FunctionDeclarationV>::empty()
            =~= crate::parser::fns_view(functions@));
    }
    let mut out_params: Vec<crate::ast::OutParameterDeclaration> = Vec::new();
    let n_o = program.out_parameters.len();
    for i in 0..n_o
        invariant
            n_o == program.out_parameters@.len(),
            crate::parser::params_view_out(out_params@) == crate::parser::params_view_out(
                program.out_parameters@,
            ).take(i as int),
        decreases n_o - i,
    {
        let p = &program.out_parameters[i];
        let ghost old_ps = out_params@;
        out_params.push(
            crate::ast::OutParameterDeclaration {
                type_kind: Spanned::new(
                    crate::compiler::resolve_types::clone_type(&p.type_kind.item),
                    p.type_kind.from,
                    p.type_kind.to,
                ),
                ident: Spanned::new(p.ident.item.clone(), p.ident.from, p.ident.to),
            },
        );
        proof {
            assert(crate::parser::params_view_out(out_params@)
                =~= crate::parser::params_view_out(program.out_parameters@).take(i + 1));
        }
    }
    let mut in_params: Vec<crate::ast::InParameterDeclaration> = Vec::new();
    let n_i = program.in_parameters.len();
    for i in 0..n_i
        invariant
            n_i == program.in_parameters@.len(),
            crate::parser::params_view_in(in_params@) == crate::parser::params_view_in(
                program.in_parameters@,
            ).take(i as int),
        decreases n_i - i,
    {
        let p = &program.in_parameters[i];
        in_params.push(
            crate::ast::InParameterDeclaration {
                type_kind: Spanned::new(
                    crate::compiler::resolve_types::clone_type(&p.type_kind.item),
                    p.type_kind.from,
                    p.type_kind.to,
                ),
                ident: Spanned::new(p.ident.item.clone(), p.ident.from, p.ident.to),
            },
        );
        proof {
            assert(crate::parser::params_view_in(in_params@) =~= crate::parser::params_view_in(
                program.in_parameters@,
            ).take(i + 1));
        }
    }
    let out = Program {
        functions,
        out_parameters: out_params,
        in_parameters: in_params,
    };
    proof {
        assert(out@.functions =~= crate::parser::fns_view(out.functions@));
        assert(out@.out_parameters =~= crate::parser::params_view_out(out.out_parameters@));
        assert(out@.out_parameters =~= pv.out_parameters);
        assert(out@.in_parameters =~= crate::parser::params_view_in(out.in_parameters@));
        assert(out@.in_parameters =~= pv.in_parameters);
    }
    out
}

/// Runs the experimental inlining stage on a parsed program.
pub fn compile(ast: &Program) -> (r: Program)
    requires
        spec_inline_pass(ast@) is Some,
        (spec_inline_fns(ast@, ast@.functions, 0) matches Some(t) && t.1 < 0xFFFF_FFFF),
    ensures
        r@ == spec_inline_pass(ast@)->Some_0,
{
    inline_pass(ast)
}

} // verus!
