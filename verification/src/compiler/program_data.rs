//! Symbol-table metadata produced by resolution and completed by code
//! generation.
//!
//! The tables are association vectors keyed by name: insertion order is kept
//! (the static section is laid out in declaration order) and keys are looked
//! up by first match, with inserts replacing an existing entry in place.

use crate::ast::{Ident, TypeKind, TypeKindV};
use vstd::prelude::*;

verus! {

/// The metadata of one symbol: its type, its stack offset once assigned, and
/// whether it lives in the static section.
#[derive(Debug)]
pub struct SymbolMeta {
    pub type_kind: TypeKind,
    pub stack_offset: Option<usize>,
    pub is_static: bool,
}

pub struct SymbolMetaV {
    pub type_kind: TypeKindV,
    pub stack_offset: Option<int>,
    pub is_static: bool,
}

impl View for SymbolMeta {
    type V = SymbolMetaV;

    open spec fn view(&self) -> SymbolMetaV {
        SymbolMetaV {
            type_kind: self.type_kind@,
            stack_offset: match self.stack_offset {
                Some(o) => Some(o as int),
                None => None,
            },
            is_static: self.is_static,
        }
    }
}

/// The metadata of one function: its bytecode entry address once assigned,
/// and its local symbols.
#[derive(Debug)]
pub struct FuncMeta {
    pub symbols: Vec<(Ident, SymbolMeta)>,
    pub address: Option<usize>,
}

pub struct FuncMetaV {
    pub symbols: Seq<(Seq<char>, SymbolMetaV)>,
    pub address: Option<int>,
}

/// The views of a symbol table.
pub open spec fn syms_view(q: Seq<(Ident, SymbolMeta)>) -> Seq<(Seq<char>, SymbolMetaV)> {
    Seq::new(q.len(), |i: int| (q[i].0@, q[i].1@))
}

impl View for FuncMeta {
    type V = FuncMetaV;

    open spec fn view(&self) -> FuncMetaV {
        FuncMetaV {
            symbols: syms_view(self.symbols@),
            address: match self.address {
                Some(a) => Some(a as int),
                None => None,
            },
        }
    }
}

impl FuncMeta {
    pub fn new() -> (r: FuncMeta)
        ensures
            r@.symbols.len() == 0,
            r@.address is None,
    {
        FuncMeta { symbols: Vec::new(), address: None }
    }
}

/// The metadata of a whole program: its functions, its static (global)
/// symbols, and the stack layout sizes.
#[derive(Debug)]
pub struct ProgramData {
    pub functions: Vec<(Ident, FuncMeta)>,
    pub global_symbols: Vec<(Ident, SymbolMeta)>,
    pub min_stack_size: usize,
    pub static_section_size: usize,
}

pub struct ProgramDataV {
    pub functions: Seq<(Seq<char>, FuncMetaV)>,
    pub global_symbols: Seq<(Seq<char>, SymbolMetaV)>,
    pub min_stack_size: int,
    pub static_section_size: int,
}

/// The views of a function table.
pub open spec fn funcs_view(q: Seq<(Ident, FuncMeta)>) -> Seq<(Seq<char>, FuncMetaV)> {
    Seq::new(q.len(), |i: int| (q[i].0@, q[i].1@))
}

impl View for ProgramData {
    type V = ProgramDataV;

    open spec fn view(&self) -> ProgramDataV {
        ProgramDataV {
            functions: funcs_view(self.functions@),
            global_symbols: syms_view(self.global_symbols@),
            min_stack_size: self.min_stack_size as int,
            static_section_size: self.static_section_size as int,
        }
    }
}

impl ProgramData {
    pub fn new() -> (r: ProgramData)
        ensures
            r@.functions.len() == 0,
            r@.global_symbols.len() == 0,
            r@.min_stack_size == 0,
            r@.static_section_size == 0,
    {
        ProgramData {
            functions: Vec::new(),
            global_symbols: Vec::new(),
            min_stack_size: 0,
            static_section_size: 0,
        }
    }
}

/// The first entry with the given key, if any.
pub open spec fn spec_lookup_sym(q: Seq<(Seq<char>, SymbolMetaV)>, name: Seq<char>) -> Option<
    SymbolMetaV,
>
    decreases q.len(),
{
    if q.len() == 0 {
        None
    } else if q[0].0 == name {
        Some(q[0].1)
    } else {
        spec_lookup_sym(q.drop_first(), name)
    }
}

/// The index of the first entry with the given key, if any.
pub open spec fn spec_sym_index(q: Seq<(Seq<char>, SymbolMetaV)>, name: Seq<char>) -> Option<int>
    decreases q.len(),
{
    if q.len() == 0 {
        None
    } else if q[0].0 == name {
        Some(0int)
    } else {
        match spec_sym_index(q.drop_first(), name) {
            Some(i) => Some(i + 1),
            None => None,
        }
    }
}

pub proof fn lemma_sym_index_lookup(q: Seq<(Seq<char>, SymbolMetaV)>, name: Seq<char>)
    ensures
        match spec_sym_index(q, name) {
            Some(i) => 0 <= i < q.len() && q[i].0 == name && spec_lookup_sym(q, name) == Some(
                q[i].1,
            ) && (forall|t: int| 0 <= t < i ==> q[t].0 != name),
            None => spec_lookup_sym(q, name) is None && (forall|t: int|
                0 <= t < q.len() ==> q[t].0 != name),
        },
    decreases q.len(),
{
    if q.len() > 0 && q[0].0 != name {
        let dq = q.drop_first();
        lemma_sym_index_lookup(dq, name);
        assert(forall|t: int| 0 <= t < dq.len() ==> #[trigger] dq[t] == q[t + 1]);
        match spec_sym_index(q, name) {
            Some(i) => {
                assert(spec_sym_index(dq, name) == Some(i - 1));
                assert(q[i] == dq[i - 1]);
                assert forall|t: int| 0 <= t < i implies q[t].0 != name by {
                    if t > 0 {
                        assert(dq[t - 1] == q[t]);
                        assert(dq[t - 1].0 != name);
                    }
                }
            },
            None => {
                assert forall|t: int| 0 <= t < q.len() implies q[t].0 != name by {
                    if t > 0 {
                        assert(dq[t - 1] == q[t]);
                    }
                }
            },
        }
    }
}

/// Looks a name up in a symbol table: the first entry with that name.
pub fn lookup_sym_table<'a>(q: &'a Vec<(Ident, SymbolMeta)>, name: &Ident) -> (r: Option<
    &'a SymbolMeta,
>)
    ensures
        match r {
            Some(m) => spec_lookup_sym(syms_view(q@), name@) == Some(m@),
            None => spec_lookup_sym(syms_view(q@), name@) is None,
        },
{
    let n = q.len();
    proof {
        assert(syms_view(q@).skip(0) =~= syms_view(q@));
    }
    for i in 0..n
        invariant
            n == q@.len(),
            spec_lookup_sym(syms_view(q@), name@) == spec_lookup_sym(
                syms_view(q@).skip(i as int),
                name@,
            ),
        decreases n - i,
    {
        proof {
            assert(syms_view(q@).skip(i as int)[0] == (q@[i as int].0@, q@[i as int].1@));
            assert(syms_view(q@).skip(i as int).drop_first() =~= syms_view(q@).skip(i + 1));
        }
        if q[i].0 == *name {
            return Some(&q[i].1);
        }
    }
    proof {
        assert(syms_view(q@).skip(n as int).len() == 0);
    }
    None
}

/// The first function entry with the given key, if any.
pub open spec fn spec_lookup_func(q: Seq<(Seq<char>, FuncMetaV)>, name: Seq<char>) -> Option<
    FuncMetaV,
>
    decreases q.len(),
{
    if q.len() == 0 {
        None
    } else if q[0].0 == name {
        Some(q[0].1)
    } else {
        spec_lookup_func(q.drop_first(), name)
    }
}

/// Looks a name up in a function table: the first entry with that name.
pub fn lookup_func_table<'a>(q: &'a Vec<(Ident, FuncMeta)>, name: &Ident) -> (r: Option<
    &'a FuncMeta,
>)
    ensures
        match r {
            Some(m) => spec_lookup_func(funcs_view(q@), name@) == Some(m@),
            None => spec_lookup_func(funcs_view(q@), name@) is None,
        },
{
    let n = q.len();
    proof {
        assert(funcs_view(q@).skip(0) =~= funcs_view(q@));
    }
    for i in 0..n
        invariant
            n == q@.len(),
            spec_lookup_func(funcs_view(q@), name@) == spec_lookup_func(
                funcs_view(q@).skip(i as int),
                name@,
            ),
        decreases n - i,
    {
        proof {
            assert(funcs_view(q@).skip(i as int)[0] == (q@[i as int].0@, q@[i as int].1@));
            assert(funcs_view(q@).skip(i as int).drop_first() =~= funcs_view(q@).skip(i + 1));
        }
        if q[i].0 == *name {
            return Some(&q[i].1);
        }
    }
    proof {
        assert(funcs_view(q@).skip(n as int).len() == 0);
    }
    None
}

/// The table after an insert-or-replace: the first entry with the key is
/// replaced in place, or a new entry is appended.
pub open spec fn spec_insert_sym(
    q: Seq<(Seq<char>, SymbolMetaV)>,
    name: Seq<char>,
    m: SymbolMetaV,
) -> Seq<(Seq<char>, SymbolMetaV)> {
    match spec_sym_index(q, name) {
        Some(i) => q.update(i, (name, m)),
        None => q.push((name, m)),
    }
}

/// Inserts or replaces a symbol-table entry, keeping insertion order.
pub fn insert_sym_table(q: &mut Vec<(Ident, SymbolMeta)>, name: Ident, m: SymbolMeta)
    ensures
        syms_view(final(q)@) == spec_insert_sym(syms_view(old(q)@), name@, m@),
{
    let ghost qv = syms_view(old(q)@);
    let ghost namev = name@;
    let ghost mv = m@;
    let n = q.len();
    let mut i: usize = 0;
    while i < n
        invariant
            n == q@.len(),
            q@ == old(q)@,
            qv == syms_view(q@),
            namev == name@,
            mv == m@,
            i <= n,
            forall|t: int| 0 <= t < i ==> qv[t].0 != namev,
        decreases n - i,
    {
        proof {
            assert(qv[i as int] == (q@[i as int].0@, q@[i as int].1@));
        }
        if q[i].0 == *(&name) {
            proof {
                lemma_sym_index_lookup(qv, namev);
                if let Some(j) = spec_sym_index(qv, namev) {
                    if j < i as int {
                        assert(qv[j].0 != namev);
                        assert(false);
                    }
                    if j > i as int {
                        assert(qv[i as int].0 != namev);
                        assert(false);
                    }
                } else {
                    assert(qv[i as int].0 != namev);
                    assert(false);
                }
                assert(spec_sym_index(qv, namev) == Some(i as int));
            }
            q.set(i, (name, m));
            proof {
                assert(syms_view(q@) =~= qv.update(i as int, (namev, mv)));
            }
            return ;
        }
        i = i + 1;
    }
    proof {
        lemma_sym_index_lookup(qv, namev);
        if let Some(j) = spec_sym_index(qv, namev) {
            assert(qv[j].0 != namev);
            assert(false);
        }
        assert(spec_sym_index(qv, namev) is None);
    }
    q.push((name, m));
    proof {
        assert(syms_view(q@) =~= qv.push((namev, mv)));
    }
}


/// The index of the first function entry with the given key, if any.
pub open spec fn spec_func_index(q: Seq<(Seq<char>, FuncMetaV)>, name: Seq<char>) -> Option<int>
    decreases q.len(),
{
    if q.len() == 0 {
        None
    } else if q[0].0 == name {
        Some(0int)
    } else {
        match spec_func_index(q.drop_first(), name) {
            Some(i) => Some(i + 1),
            None => None,
        }
    }
}

pub proof fn lemma_func_index_lookup(q: Seq<(Seq<char>, FuncMetaV)>, name: Seq<char>)
    ensures
        match spec_func_index(q, name) {
            Some(i) => 0 <= i < q.len() && q[i].0 == name && spec_lookup_func(q, name) == Some(
                q[i].1,
            ) && (forall|t: int| 0 <= t < i ==> q[t].0 != name),
            None => spec_lookup_func(q, name) is None && (forall|t: int|
                0 <= t < q.len() ==> q[t].0 != name),
        },
    decreases q.len(),
{
    if q.len() > 0 && q[0].0 != name {
        let dq = q.drop_first();
        lemma_func_index_lookup(dq, name);
        assert(forall|t: int| 0 <= t < dq.len() ==> #[trigger] dq[t] == q[t + 1]);
        match spec_func_index(q, name) {
            Some(i) => {
                assert(spec_func_index(dq, name) == Some(i - 1));
                assert(q[i] == dq[i - 1]);
                assert forall|t: int| 0 <= t < i implies q[t].0 != name by {
                    if t > 0 {
                        assert(dq[t - 1] == q[t]);
                        assert(dq[t - 1].0 != name);
                    }
                }
            },
            None => {
                assert forall|t: int| 0 <= t < q.len() implies q[t].0 != name by {
                    if t > 0 {
                        assert(dq[t - 1] == q[t]);
                    }
                }
            },
        }
    }
}

/// The function table after an insert-or-replace.
pub open spec fn spec_insert_func(
    q: Seq<(Seq<char>, FuncMetaV)>,
    name: Seq<char>,
    m: FuncMetaV,
) -> Seq<(Seq<char>, FuncMetaV)> {
    match spec_func_index(q, name) {
        Some(i) => q.update(i, (name, m)),
        None => q.push((name, m)),
    }
}

/// Inserts or replaces a function-table entry, keeping insertion order.
pub fn insert_func_table(q: &mut Vec<(Ident, FuncMeta)>, name: Ident, m: FuncMeta)
    ensures
        funcs_view(final(q)@) == spec_insert_func(funcs_view(old(q)@), name@, m@),
{
    let ghost qv = funcs_view(old(q)@);
    let ghost namev = name@;
    let ghost mv = m@;
    let n = q.len();
    let mut i: usize = 0;
    while i < n
        invariant
            n == q@.len(),
            q@ == old(q)@,
            qv == funcs_view(q@),
            namev == name@,
            mv == m@,
            i <= n,
            forall|t: int| 0 <= t < i ==> qv[t].0 != namev,
        decreases n - i,
    {
        proof {
            assert(qv[i as int] == (q@[i as int].0@, q@[i as int].1@));
        }
        if q[i].0 == *(&name) {
            proof {
                lemma_func_index_lookup(qv, namev);
                if let Some(j) = spec_func_index(qv, namev) {
                    if j < i as int {
                        assert(qv[j].0 != namev);
                        assert(false);
                    }
                    if j > i as int {
                        assert(qv[i as int].0 != namev);
                        assert(false);
                    }
                } else {
                    assert(qv[i as int].0 != namev);
                    assert(false);
                }
                assert(spec_func_index(qv, namev) == Some(i as int));
            }
            q.set(i, (name, m));
            proof {
                assert(funcs_view(q@) =~= qv.update(i as int, (namev, mv)));
            }
            return ;
        }
        i = i + 1;
    }
    proof {
        lemma_func_index_lookup(qv, namev);
        if let Some(j) = spec_func_index(qv, namev) {
            assert(qv[j].0 != namev);
            assert(false);
        }
        assert(spec_func_index(qv, namev) is None);
    }
    q.push((name, m));
    proof {
        assert(funcs_view(q@) =~= qv.push((namev, mv)));
    }
}

} // verus!
