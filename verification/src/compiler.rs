//! Code generation: resolved syntax tree plus metadata to a flat bytecode
//! program with an explicit memory layout.
//!
//! An instruction cell is 32 bits: a 16-bit opcode in the low half and a
//! 16-bit unsigned operand in the high half. Literal data occupies a
//! following untagged cell holding a raw 32-bit pattern.

pub mod constant_folding;
pub mod program_data;
pub mod resolve_types;

use crate::ast::{
    type_size, Expr, ExprV, FunctionDeclarationV, Ident, Literal, Program, ProgramV, Statement,
    StatementV, TypeKind, TypeKindV, UnaryOperator,
};
use crate::builtins::spec_get_builtin;
use crate::compiler::program_data::{
    funcs_view, insert_func_table, insert_sym_table, lookup_func_table, lookup_sym_table,
    spec_insert_func, spec_lookup_func, spec_lookup_sym, syms_view, FuncMeta, FuncMetaV,
    ProgramData, ProgramDataV, SymbolMeta, SymbolMetaV,
};
use crate::compiler::resolve_types::{
    clone_type, lemma_exprs_view_index, lemma_exprs_view_len, spec_type_of, spec_types_of,
    type_of_expr, types_of_exprs, ResolveError,
};
use vstd::prelude::*;

verus! {

/// The operations of the virtual machine. `Jmp` and `JmpIf` are reserved:
/// the generator never emits them.
#[allow(non_camel_case_types)]
#[derive(Clone, Copy, Debug, PartialEq, Eq, Structural)]
pub enum OpCode {
    AddI32,
    SubI32,
    MulI32,
    DivI32,
    AddF32,
    SubF32,
    MulF32,
    DivF32,
    ConstF32,
    Void,
    Mov4,
    Load4,
    Mov4Global,
    Load4Global,
    Ret,
    Call,
    Jmp,
    JmpIf,
    MulF32_Vec3,
    CallBuiltIn,
}

/// The 16-bit encoding of an opcode.
pub open spec fn opcode_value(op: OpCode) -> u16 {
    match op {
        OpCode::AddI32 => 0,
        OpCode::SubI32 => 1,
        OpCode::MulI32 => 2,
        OpCode::DivI32 => 3,
        OpCode::AddF32 => 4,
        OpCode::SubF32 => 5,
        OpCode::MulF32 => 6,
        OpCode::DivF32 => 7,
        OpCode::ConstF32 => 8,
        OpCode::Void => 9,
        OpCode::Mov4 => 10,
        OpCode::Load4 => 11,
        OpCode::Mov4Global => 12,
        OpCode::Load4Global => 13,
        OpCode::Ret => 14,
        OpCode::Call => 15,
        OpCode::Jmp => 16,
        OpCode::JmpIf => 17,
        OpCode::MulF32_Vec3 => 18,
        OpCode::CallBuiltIn => 19,
    }
}

/// The opcode a 16-bit value encodes, if any.
pub open spec fn spec_opcode_of(v: u16) -> Option<OpCode> {
    if v == 0 {
        Some(OpCode::AddI32)
    } else if v == 1 {
        Some(OpCode::SubI32)
    } else if v == 2 {
        Some(OpCode::MulI32)
    } else if v == 3 {
        Some(OpCode::DivI32)
    } else if v == 4 {
        Some(OpCode::AddF32)
    } else if v == 5 {
        Some(OpCode::SubF32)
    } else if v == 6 {
        Some(OpCode::MulF32)
    } else if v == 7 {
        Some(OpCode::DivF32)
    } else if v == 8 {
        Some(OpCode::ConstF32)
    } else if v == 9 {
        Some(OpCode::Void)
    } else if v == 10 {
        Some(OpCode::Mov4)
    } else if v == 11 {
        Some(OpCode::Load4)
    } else if v == 12 {
        Some(OpCode::Mov4Global)
    } else if v == 13 {
        Some(OpCode::Load4Global)
    } else if v == 14 {
        Some(OpCode::Ret)
    } else if v == 15 {
        Some(OpCode::Call)
    } else if v == 16 {
        Some(OpCode::Jmp)
    } else if v == 17 {
        Some(OpCode::JmpIf)
    } else if v == 18 {
        Some(OpCode::MulF32_Vec3)
    } else if v == 19 {
        Some(OpCode::CallBuiltIn)
    } else {
        None
    }
}

/// Decoding inverts encoding: every opcode round-trips through its 16-bit
/// value.
pub proof fn lemma_opcode_round_trip(op: OpCode)
    ensures
        spec_opcode_of(opcode_value(op)) == Some(op),
{
}

pub fn opcode_of(v: u16) -> (r: Option<OpCode>)
    ensures
        r == spec_opcode_of(v),
{
    if v == 0 {
        Some(OpCode::AddI32)
    } else if v == 1 {
        Some(OpCode::SubI32)
    } else if v == 2 {
        Some(OpCode::MulI32)
    } else if v == 3 {
        Some(OpCode::DivI32)
    } else if v == 4 {
        Some(OpCode::AddF32)
    } else if v == 5 {
        Some(OpCode::SubF32)
    } else if v == 6 {
        Some(OpCode::MulF32)
    } else if v == 7 {
        Some(OpCode::DivF32)
    } else if v == 8 {
        Some(OpCode::ConstF32)
    } else if v == 9 {
        Some(OpCode::Void)
    } else if v == 10 {
        Some(OpCode::Mov4)
    } else if v == 11 {
        Some(OpCode::Load4)
    } else if v == 12 {
        Some(OpCode::Mov4Global)
    } else if v == 13 {
        Some(OpCode::Load4Global)
    } else if v == 14 {
        Some(OpCode::Ret)
    } else if v == 15 {
        Some(OpCode::Call)
    } else if v == 16 {
        Some(OpCode::Jmp)
    } else if v == 17 {
        Some(OpCode::JmpIf)
    } else if v == 18 {
        Some(OpCode::MulF32_Vec3)
    } else if v == 19 {
        Some(OpCode::CallBuiltIn)
    } else {
        None
    }
}

pub fn opcode_value_exec(op: OpCode) -> (r: u16)
    ensures
        r == opcode_value(op),
{
    match op {
        OpCode::AddI32 => 0,
        OpCode::SubI32 => 1,
        OpCode::MulI32 => 2,
        OpCode::DivI32 => 3,
        OpCode::AddF32 => 4,
        OpCode::SubF32 => 5,
        OpCode::MulF32 => 6,
        OpCode::DivF32 => 7,
        OpCode::ConstF32 => 8,
        OpCode::Void => 9,
        OpCode::Mov4 => 10,
        OpCode::Load4 => 11,
        OpCode::Mov4Global => 12,
        OpCode::Load4Global => 13,
        OpCode::Ret => 14,
        OpCode::Call => 15,
        OpCode::Jmp => 16,
        OpCode::JmpIf => 17,
        OpCode::MulF32_Vec3 => 18,
        OpCode::CallBuiltIn => 19,
    }
}

/// One 32-bit cell of a compiled program: an instruction, or raw literal
/// data.
#[derive(Clone, Copy, Debug, PartialEq, Eq, Structural)]
pub struct MemoryCell {
    pub data: u32,
}

/// The cell that encodes an instruction with an operand.
pub open spec fn spec_cell_of(op: OpCode, operand: u16) -> u32 {
    (opcode_value(op) as u32) | ((operand as u32) << 16)
}

impl MemoryCell {
    /// A raw data cell.
    pub fn raw(data: u32) -> (r: MemoryCell)
        ensures
            r.data == data,
    {
        MemoryCell { data }
    }

    /// An instruction cell with operand zero.
    pub fn plain_inst(inst: OpCode) -> (r: MemoryCell)
        ensures
            r.data == spec_cell_of(inst, 0),
    {
        let v = opcode_value_exec(inst);
        proof {
            assert((v as u32) | ((0u16 as u32) << 16) == v as u32) by (bit_vector);
        }
        MemoryCell { data: v as u32 }
    }

    /// An instruction cell with the given operand.
    pub fn with_data(inst: OpCode, data: u16) -> (r: MemoryCell)
        ensures
            r.data == spec_cell_of(inst, data),
    {
        let v = opcode_value_exec(inst);
        MemoryCell { data: (v as u32) | ((data as u32) << 16) }
    }

    /// Splits a cell into its opcode and operand; `None` when the low half
    /// encodes no opcode.
    pub fn get_inst(&self) -> (r: Option<(OpCode, u16)>)
        ensures
            match r {
                Some((op, operand)) => self.data == spec_cell_of(op, operand),
                None => spec_opcode_of((self.data & 0xFFFF) as u16) is None,
            },
    {
        let low: u16 = (self.data & 0xFFFF) as u16;
        let high: u16 = (self.data >> 16) as u16;
        match opcode_of(low) {
            Some(op) => {
                proof {
                    let d = self.data;
                    assert((((d & 0xFFFF) as u16) as u32) | ((((d >> 16) as u16) as u32) << 16)
                        == d) by (bit_vector);
                }
                Some((op, high))
            },
            None => None,
        }
    }
}

/// Every opcode-and-operand pair round-trips through its cell encoding.
pub proof fn lemma_cell_round_trip(op: OpCode, operand: u16)
    ensures
        (spec_cell_of(op, operand) & 0xFFFF) as u16 == opcode_value(op),
        (spec_cell_of(op, operand) >> 16) as u16 == operand,
{
    let v = opcode_value(op);
    assert(v < 20);
    let enc = spec_cell_of(op, operand);
    assert(v < 20 ==> ((v as u32 | ((operand as u32) << 16)) & 0xFFFF) as u16 == v)
        by (bit_vector);
    assert(((v as u32 | ((operand as u32) << 16)) >> 16) as u16 == operand) by (bit_vector);
}

/// A compiled program: an immutable instruction sequence plus its metadata.
#[derive(Debug)]
pub struct VMProgram {
    pub code: Vec<MemoryCell>,
    pub data: program_data::ProgramData,
}

pub struct VMProgramV {
    pub code: Seq<u32>,
    pub data: program_data::ProgramDataV,
}

/// The raw cell values of an instruction sequence.
pub open spec fn code_view(q: Seq<MemoryCell>) -> Seq<u32> {
    Seq::new(q.len(), |i: int| q[i].data)
}

impl View for VMProgram {
    type V = VMProgramV;

    open spec fn view(&self) -> VMProgramV {
        VMProgramV { code: code_view(self.code@), data: self.data@ }
    }
}

impl VMProgram {
    pub fn new() -> (r: VMProgram)
        ensures
            r@.code.len() == 0,
            r@.data.functions.len() == 0,
            r@.data.global_symbols.len() == 0,
            r@.data.min_stack_size == 0,
            r@.data.static_section_size == 0,
    {
        VMProgram { code: Vec::new(), data: program_data::ProgramData::new() }
    }
}

/// A compilation failure: a fault in the source text, a resolution error,
/// or an internal defect of the compiler itself (an invariant the generator
/// found broken in its own data).
#[derive(Debug)]
pub enum CompileError {
    Source(crate::parser::SourceError),
    Resolve(ResolveError),
    Internal,
}

pub enum CompileErrorV {
    Source(crate::parser::SourceErrorV),
    Resolve(crate::compiler::resolve_types::ResolveErrorV),
    Internal,
}

impl View for CompileError {
    type V = CompileErrorV;

    open spec fn view(&self) -> CompileErrorV {
        match self {
            CompileError::Source(e) => CompileErrorV::Source(e@),
            CompileError::Resolve(e) => CompileErrorV::Resolve(e@),
            CompileError::Internal => CompileErrorV::Internal,
        }
    }
}

/// The bit pattern of minus one, used to negate a scalar by multiplication.
pub open spec fn neg_one_bits() -> u32 {
    0xBF80_0000u32
}

/// Assigns static-section offsets in table order: each symbol gets the next
/// free offset, four bytes per scalar and twelve per 3-vector, with no gaps.
/// Fails if the section outgrows a 16-bit offset.
pub open spec fn spec_assign_globals(gs: Seq<(Seq<char>, SymbolMetaV)>, off: int) -> Result<
    (Seq<(Seq<char>, SymbolMetaV)>, int),
    (),
>
    decreases gs.len(),
{
    if gs.len() == 0 {
        Ok((Seq::empty(), off))
    } else {
        let m = gs[0].1;
        let size = type_size(m.type_kind);
        if off + size > 0xFFFF {
            Err(())
        } else {
            let m2 = SymbolMetaV {
                type_kind: m.type_kind,
                stack_offset: Some(off),
                is_static: m.is_static,
            };
            match spec_assign_globals(gs.drop_first(), off + size) {
                Ok((rest, end)) => Ok((seq![(gs[0].0, m2)] + rest, end)),
                Err(e) => Err(e),
            }
        }
    }
}

/// The load/store opcode family a symbol uses, by its static flag.
pub open spec fn spec_load_op(is_static: bool) -> OpCode {
    if is_static {
        OpCode::Load4Global
    } else {
        OpCode::Load4
    }
}

/// The cells that read a symbol: one load per four-byte chunk, at
/// increasing offsets.
pub open spec fn spec_load_cells(op: OpCode, off: int, size: int) -> Seq<u32> {
    Seq::new((size / 4) as nat, |k: int| spec_cell_of(op, (off + 4 * k) as u16))
}

/// The cells that store to a global: one store per four-byte chunk, popped
/// from the top of the stack, so offsets run backwards.
pub open spec fn spec_store_cells(off: int, size: int) -> Seq<u32> {
    Seq::new(
        (size / 4) as nat,
        |k: int| spec_cell_of(OpCode::Mov4Global, (off + size - 4 - 4 * k) as u16),
    )
}

/// The instruction-selection for a binary operator given its operand types:
/// a scalar times a vector selects the vector-scaling opcode.
pub open spec fn spec_binop_opcode(
    op: crate::ast::BinaryOperator,
    ta: TypeKindV,
    tb: TypeKindV,
) -> OpCode {
    match op {
        crate::ast::BinaryOperator::Add => OpCode::AddF32,
        crate::ast::BinaryOperator::Sub => OpCode::SubF32,
        crate::ast::BinaryOperator::Div => OpCode::DivF32,
        crate::ast::BinaryOperator::Mul => if ta == TypeKindV::F32 && tb == TypeKindV::Vec3 {
            OpCode::MulF32_Vec3
        } else {
            OpCode::MulF32
        },
    }
}

/// The code a single expression compiles to, appended to `code`: postfix
/// stack-machine order. Fails on anything resolution should have ruled out.
pub open spec fn spec_gen_expr(
    e: ExprV,
    locals: Seq<(Seq<char>, SymbolMetaV)>,
    globals: Seq<(Seq<char>, SymbolMetaV)>,
    funcs: Seq<(Seq<char>, FuncMetaV)>,
    code: Seq<u32>,
) -> Result<Seq<u32>, ()>
    decreases e, 0int,
{
    match e {
        ExprV::Literal(l) => match l {
            Literal::DecimalLiteral(b) => Ok(
                code + seq![spec_cell_of(OpCode::ConstF32, 0), b],
            ),
            Literal::IntegerLiteral(_) => Err(()),
        },
        ExprV::Symbol(name) => {
            let found = match spec_lookup_sym(locals, name) {
                Some(m) => Some(m),
                None => spec_lookup_sym(globals, name),
            };
            match found {
                Some(m) => match m.stack_offset {
                    Some(off) => {
                        let size = type_size(m.type_kind);
                        if off < 0 || off + size > 0x10000 {
                            Err(())
                        } else {
                            Ok(code + spec_load_cells(spec_load_op(m.is_static), off, size))
                        }
                    },
                    None => Err(()),
                },
                None => Err(()),
            }
        },
        ExprV::UnaryOp(op, e1) => if op != UnaryOperator::Sub {
            Err(())
        } else {
            match spec_gen_expr(*e1, locals, globals, funcs, code) {
                Ok(c) => Ok(
                    c + seq![
                        spec_cell_of(OpCode::ConstF32, 0),
                        neg_one_bits(),
                        spec_cell_of(OpCode::MulF32, 0),
                    ],
                ),
                Err(er) => Err(er),
            }
        },
        ExprV::BinaryOp(op, a, b) => match spec_type_of(*a, locals, globals, funcs) {
            Ok(ta) => match spec_type_of(*b, locals, globals, funcs) {
                Ok(tb) => match spec_gen_expr(*a, locals, globals, funcs, code) {
                    Ok(c1) => match spec_gen_expr(*b, locals, globals, funcs, c1) {
                        Ok(c2) => Ok(c2 + seq![spec_cell_of(spec_binop_opcode(op, ta, tb), 0)]),
                        Err(er) => Err(er),
                    },
                    Err(er) => Err(er),
                },
                Err(_) => Err(()),
            },
            Err(_) => Err(()),
        },
        ExprV::FuncCall(name, args) => match spec_gen_exprs(args, locals, globals, funcs, code) {
            Ok(c1) => match spec_types_of(args, locals, globals, funcs) {
                Ok(tys) => match spec_get_builtin(name, tys) {
                    Some((idx, _)) => Ok(c1 + seq![spec_cell_of(OpCode::CallBuiltIn, idx as u16)]),
                    None => match spec_lookup_func(funcs, name) {
                        Some(fm) => match fm.address {
                            Some(addr) => if 0 <= addr <= 0xFFFF {
                                Ok(c1 + seq![spec_cell_of(OpCode::Call, addr as u16)])
                            } else {
                                Err(())
                            },
                            None => Err(()),
                        },
                        None => Err(()),
                    },
                },
                Err(_) => Err(()),
            },
            Err(er) => Err(er),
        },
    }
}

/// The code an argument list compiles to, left to right.
pub open spec fn spec_gen_exprs(
    es: Seq<ExprV>,
    locals: Seq<(Seq<char>, SymbolMetaV)>,
    globals: Seq<(Seq<char>, SymbolMetaV)>,
    funcs: Seq<(Seq<char>, FuncMetaV)>,
    code: Seq<u32>,
) -> Result<Seq<u32>, ()>
    decreases es, es.len() + 1,
{
    if es.len() <= 0 {
        Ok(code)
    } else {
        match spec_gen_expr(es[0], locals, globals, funcs, code) {
            Ok(c1) => spec_gen_exprs(es.subrange(1, es.len() as int), locals, globals, funcs, c1),
            Err(er) => Err(er),
        }
    }
}

/// The walk of one function body: emits code, allocates a fresh
/// frame-relative offset the first time each non-global name is assigned,
/// and records whether an explicit return was seen. Statements after a
/// return are dead and compile to nothing, so the emitted range ends at
/// its one `Ret`.
pub open spec fn spec_gen_stmts(
    sts: Seq<StatementV>,
    locals: Seq<(Seq<char>, SymbolMetaV)>,
    stack_offset: int,
    has_return: bool,
    globals: Seq<(Seq<char>, SymbolMetaV)>,
    funcs: Seq<(Seq<char>, FuncMetaV)>,
    code: Seq<u32>,
) -> Result<(Seq<u32>, Seq<(Seq<char>, SymbolMetaV)>, int, bool), ()>
    decreases sts.len(),
{
    if sts.len() == 0 || has_return {
        Ok((code, locals, stack_offset, has_return))
    } else {
        match sts[0] {
            StatementV::Assignment(name, e) => match spec_gen_expr(
                e,
                locals,
                globals,
                funcs,
                code,
            ) {
                Ok(c1) => match spec_lookup_sym(globals, name) {
                    Some(g) => match g.stack_offset {
                        Some(goff) => {
                            let size = type_size(g.type_kind);
                            if goff < 0 || goff + size > 0x10000 {
                                Err(())
                            } else {
                                spec_gen_stmts(
                                    sts.drop_first(),
                                    locals,
                                    stack_offset,
                                    has_return,
                                    globals,
                                    funcs,
                                    c1 + spec_store_cells(goff, size),
                                )
                            }
                        },
                        None => Err(()),
                    },
                    None => match spec_type_of(e, locals, globals, funcs) {
                        Ok(ty) => {
                            let size = type_size(ty);
                            if stack_offset + size > 0xFFFF {
                                Err(())
                            } else {
                                spec_gen_stmts(
                                    sts.drop_first(),
                                    crate::compiler::program_data::spec_insert_sym(
                                        locals,
                                        name,
                                        SymbolMetaV {
                                            type_kind: ty,
                                            stack_offset: Some(stack_offset),
                                            is_static: false,
                                        },
                                    ),
                                    stack_offset + size,
                                    has_return,
                                    globals,
                                    funcs,
                                    c1,
                                )
                            }
                        },
                        Err(_) => Err(()),
                    },
                },
                Err(er) => Err(er),
            },
            StatementV::Return(e) => match spec_gen_expr(e, locals, globals, funcs, code) {
                Ok(c1) => spec_gen_stmts(
                    sts.drop_first(),
                    locals,
                    stack_offset,
                    true,
                    globals,
                    funcs,
                    c1 + seq![spec_cell_of(OpCode::Ret, stack_offset as u16)],
                ),
                Err(er) => Err(er),
            },
        }
    }
}

/// Compiles one function against a fixed call table: records its entry
/// address (the end of the code laid down so far), walks its body, and
/// synthesizes a void return when the body has none. Every compiled function
/// ends in exactly one `Ret` whose operand is the frame's local byte size.
pub open spec fn spec_gen_fn(
    f: FunctionDeclarationV,
    meta: FuncMetaV,
    globals: Seq<(Seq<char>, SymbolMetaV)>,
    table: Seq<(Seq<char>, FuncMetaV)>,
    code: Seq<u32>,
) -> Result<(Seq<u32>, FuncMetaV), ()> {
    let addr = code.len() as int;
    if addr > 0xFFFF {
        Err(())
    } else {
        match spec_gen_stmts(f.statements, meta.symbols, 0, false, globals, table, code) {
            Ok((c1, locals, off, has_return)) => {
                let c2 = if has_return {
                    c1
                } else {
                    c1 + seq![
                        spec_cell_of(OpCode::Void, 0),
                        spec_cell_of(OpCode::Ret, off as u16),
                    ]
                };
                Ok((c2, FuncMetaV { symbols: locals, address: Some(addr) }))
            },
            Err(er) => Err(er),
        }
    }
}

/// Compiles every function in declaration order against a fixed call table,
/// threading the code buffer and filling each function's metadata with its
/// entry address and local symbols.
pub open spec fn spec_gen_fns(
    fs: Seq<FunctionDeclarationV>,
    metas: Seq<(Seq<char>, FuncMetaV)>,
    globals: Seq<(Seq<char>, SymbolMetaV)>,
    table: Seq<(Seq<char>, FuncMetaV)>,
    code: Seq<u32>,
) -> Result<(Seq<u32>, Seq<(Seq<char>, FuncMetaV)>), ()>
    decreases fs.len(),
{
    if fs.len() == 0 {
        Ok((code, metas))
    } else {
        match spec_lookup_func(metas, fs[0].ident) {
            Some(meta) => match spec_gen_fn(fs[0], meta, globals, table, code) {
                Ok((c1, meta2)) => spec_gen_fns(
                    fs.drop_first(),
                    spec_insert_func(metas, fs[0].ident, meta2),
                    globals,
                    table,
                    c1,
                ),
                Err(er) => Err(er),
            },
            None => Err(()),
        }
    }
}

/// The function table with every entry address provisionally set, so that a
/// body can be generated, and its length measured, before any real entry
/// address is known.
pub open spec fn spec_placed_table(fs: Seq<(Seq<char>, FuncMetaV)>) -> Seq<
    (Seq<char>, FuncMetaV),
> {
    fs.map_values(
        |e: (Seq<char>, FuncMetaV)| (e.0, FuncMetaV { symbols: e.1.symbols, address: Some(0int) }),
    )
}

/// What code generation yields on a resolved program: the static layout
/// (in-parameters then out-parameters, declaration order, no gaps), the
/// instruction stream, and the completed metadata, with
/// `min_stack_size = static_section_size + 1024`.
///
/// Generation runs in two passes, so a call may name a function declared
/// later: a sizing pass lays every body out against a provisional table to
/// fix each function's entry address, and the emitting pass then generates
/// every call site against the completed table.
pub open spec fn spec_codegen(p: ProgramV, d: ProgramDataV) -> Result<VMProgramV, ()> {
    match spec_assign_globals(d.global_symbols, 0) {
        Ok((globals, static_size)) => match spec_gen_fns(
            p.functions,
            d.functions,
            globals,
            spec_placed_table(d.functions),
            Seq::empty(),
        ) {
            Ok((_, sized)) => match spec_gen_fns(
                p.functions,
                d.functions,
                globals,
                sized,
                Seq::empty(),
            ) {
                Ok((code, funcs)) => Ok(
                    VMProgramV {
                        code: code,
                        data: ProgramDataV {
                            functions: funcs,
                            global_symbols: globals,
                            min_stack_size: static_size + 1024,
                            static_section_size: static_size,
                        },
                    },
                ),
                Err(er) => Err(er),
            },
            Err(er) => Err(er),
        },
        Err(er) => Err(er),
    }
}

/// What compilation yields on a parsed program: resolution then code
/// generation; a code-generation fault on a resolved program is an internal
/// defect.
pub open spec fn spec_compile(p: ProgramV) -> Result<VMProgramV, CompileErrorV> {
    match crate::compiler::resolve_types::spec_resolve(p) {
        Ok(d) => match spec_codegen(p, d) {
            Ok(vp) => Ok(vp),
            Err(_) => Err(CompileErrorV::Internal),
        },
        Err(e) => Err(CompileErrorV::Resolve(e)),
    }
}


/// Emits the code of one expression onto the buffer, exactly as
/// `spec_gen_expr` describes. A failure is an internal defect: resolution
/// has already ruled these shapes out of user programs.
#[verifier::rlimit(100)]
#[verifier::loop_isolation(false)]
pub fn generate_expr(
    code: &mut Vec<MemoryCell>,
    e: &Expr,
    locals: &Vec<(Ident, SymbolMeta)>,
    globals: &Vec<(Ident, SymbolMeta)>,
    funcs: &Vec<(Ident, FuncMeta)>,
) -> (r: Result<(), CompileError>)
    ensures
        match spec_gen_expr(
            e@,
            syms_view(locals@),
            syms_view(globals@),
            funcs_view(funcs@),
            code_view(old(code)@),
        ) {
            Ok(c) => r is Ok && code_view(final(code)@) == c,
            Err(er) => r matches Err(ce) && ce@ == CompileErrorV::Internal,
        },
    decreases *e,
{
    let ghost lv = syms_view(locals@);
    let ghost gv = syms_view(globals@);
    let ghost fv = funcs_view(funcs@);
    let ghost c0 = code_view(code@);
    match e {
        Expr::Literal(l) => match l.item {
            Literal::DecimalLiteral(b) => {
                code.push(MemoryCell::plain_inst(OpCode::ConstF32));
                code.push(MemoryCell::raw(b));
                proof {
                    assert(code_view(code@) =~= c0 + seq![spec_cell_of(OpCode::ConstF32, 0), b]);
                }
                Ok(())
            },
            Literal::IntegerLiteral(_) => Err(CompileError::Internal),
        },
        Expr::Symbol(s) => {
            let found = match lookup_sym_table(locals, &s.ident) {
                Some(m) => Some(m),
                None => lookup_sym_table(globals, &s.ident),
            };
            match found {
                None => Err(CompileError::Internal),
                Some(m) => match m.stack_offset {
                    None => Err(CompileError::Internal),
                    Some(off) => {
                        let size = m.type_kind.size();
                        if size > 0x10000 || off > 0x10000 - size {
                            return Err(CompileError::Internal);
                        }
                        let op = if m.is_static {
                            OpCode::Load4Global
                        } else {
                            OpCode::Load4
                        };
                        let ghost opv = spec_load_op(m@.is_static);
                        let chunks = size / 4;
                        proof {
                            assert(code_view(code@) =~= c0 + spec_load_cells(
                                opv,
                                off as int,
                                size as int,
                            ).take(0));
                        }
                        for k in 0..chunks
                            invariant
                                chunks == size / 4,
                                size == type_size(m@.type_kind),
                                off + size <= 0x10000,
                                code_view(code@) == c0 + spec_load_cells(
                                    opv,
                                    off as int,
                                    size as int,
                                ).take(k as int),
                            decreases chunks - k,
                        {
                            proof {
                                assert(op == opv);
                                assert(4 * k as int + 4 <= size as int);
                                assert((k as int) < (size as int) / 4);
                                assert(spec_load_cells(opv, off as int, size as int)[k as int]
                                    == spec_cell_of(opv, ((off as int) + 4 * (k as int)) as u16));
                                assert(((off as int) + 4 * (k as int)) as u16 == (off + 4
                                    * k) as u16);
                            }
                            let ghost prev = code_view(code@);
                            code.push(MemoryCell::with_data(op, (off + 4 * k) as u16));
                            proof {
                                assert(code_view(code@) =~= prev.push(
                                    spec_cell_of(opv, ((off as int) + 4 * (k as int)) as u16),
                                ));
                                assert(prev.push(
                                    spec_cell_of(opv, ((off as int) + 4 * (k as int)) as u16),
                                ) =~= c0 + spec_load_cells(opv, off as int, size as int).take(
                                    k + 1,
                                ));
                            }
                        }
                        proof {
                            assert(spec_load_cells(opv, off as int, size as int).take(
                                chunks as int,
                            ) =~= spec_load_cells(opv, off as int, size as int));
                        }
                        Ok(())
                    },
                },
            }
        },
        Expr::UnaryOp(op, e1) => match op {
            UnaryOperator::Sub => {
                match generate_expr(code, e1, locals, globals, funcs) {
                    Ok(_) => (),
                    Err(er) => {
                        return Err(er);
                    },
                }
                let ghost c1 = code_view(code@);
                code.push(MemoryCell::plain_inst(OpCode::ConstF32));
                code.push(MemoryCell::raw(0xBF80_0000u32));
                code.push(MemoryCell::plain_inst(OpCode::MulF32));
                proof {
                    assert(code_view(code@) =~= c1 + seq![
                        spec_cell_of(OpCode::ConstF32, 0),
                        neg_one_bits(),
                        spec_cell_of(OpCode::MulF32, 0),
                    ]);
                }
                Ok(())
            },
            _ => Err(CompileError::Internal),
        },
        Expr::BinaryOp(op, a, b) => {
            let ta = match type_of_expr(a, locals, globals, funcs) {
                Ok(t) => t,
                Err(_) => {
                    return Err(CompileError::Internal);
                },
            };
            let tb = match type_of_expr(b, locals, globals, funcs) {
                Ok(t) => t,
                Err(_) => {
                    return Err(CompileError::Internal);
                },
            };
            match generate_expr(code, a, locals, globals, funcs) {
                Ok(_) => (),
                Err(er) => {
                    return Err(er);
                },
            }
            match generate_expr(code, b, locals, globals, funcs) {
                Ok(_) => (),
                Err(er) => {
                    return Err(er);
                },
            }
            let ghost c2 = code_view(code@);
            let scale = matches!(op, crate::ast::BinaryOperator::Mul) && matches!(
                ta,
                TypeKind::F32,
            ) && matches!(tb, TypeKind::Vec3);
            let opc = match op {
                crate::ast::BinaryOperator::Add => OpCode::AddF32,
                crate::ast::BinaryOperator::Sub => OpCode::SubF32,
                crate::ast::BinaryOperator::Div => OpCode::DivF32,
                crate::ast::BinaryOperator::Mul => if scale {
                    OpCode::MulF32_Vec3
                } else {
                    OpCode::MulF32
                },
            };
            code.push(MemoryCell::plain_inst(opc));
            proof {
                assert(opc == spec_binop_opcode(*op, ta@, tb@));
                assert(code_view(code@) =~= c2 + seq![spec_cell_of(opc, 0)]);
            }
            Ok(())
        },
        Expr::FuncCall(name, args) => {
            let ghost argsv = crate::ast::exprs_view(args@);
            let n = args.len();
            proof {
                lemma_exprs_view_len(args@);
                assert(argsv.skip(0) =~= argsv);
            }
            for i in 0..n
                invariant
                    n == args@.len(),
                    spec_gen_exprs(argsv, lv, gv, fv, c0) == spec_gen_exprs(
                        argsv.skip(i as int),
                        lv,
                        gv,
                        fv,
                        code_view(code@),
                    ),
                decreases n - i,
            {
                proof {
                    lemma_exprs_view_index(args@, i as int);
                    assert(decreases_to!(*e => *args));
                    assert(decreases_to!(*args => args@));
                    assert(decreases_to!(args@ => args@[i as int]));
                    assert(argsv.skip(i as int)[0] == argsv[i as int]);
                    assert(argsv.skip(i as int).subrange(
                        1,
                        argsv.skip(i as int).len() as int,
                    ) =~= argsv.skip(i + 1));
                }
                match generate_expr(code, &args[i], locals, globals, funcs) {
                    Ok(_) => (),
                    Err(er) => {
                        return Err(er);
                    },
                }
            }
            proof {
                assert(argsv.skip(n as int).len() == 0);
            }
            let ghost c1 = code_view(code@);
            let tys = match types_of_exprs(args, locals, globals, funcs) {
                Ok(tys) => tys,
                Err(_) => {
                    return Err(CompileError::Internal);
                },
            };
            match crate::builtins::get_builtin_fn(&name.item, &tys) {
                Some((idx, _)) => {
                    code.push(MemoryCell::with_data(OpCode::CallBuiltIn, idx as u16));
                    proof {
                        assert(code_view(code@) =~= c1 + seq![
                            spec_cell_of(OpCode::CallBuiltIn, idx as u16),
                        ]);
                    }
                    Ok(())
                },
                None => match lookup_func_table(funcs, &name.item) {
                    Some(fm) => match fm.address {
                        Some(addr) => {
                            if addr > 0xFFFF {
                                return Err(CompileError::Internal);
                            }
                            code.push(MemoryCell::with_data(OpCode::Call, addr as u16));
                            proof {
                                assert(code_view(code@) =~= c1 + seq![
                                    spec_cell_of(OpCode::Call, addr as u16),
                                ]);
                            }
                            Ok(())
                        },
                        None => Err(CompileError::Internal),
                    },
                    None => Err(CompileError::Internal),
                },
            }
        },
    }
}

/// An equal copy of a symbol table.
pub fn clone_sym_table(q: &Vec<(Ident, SymbolMeta)>) -> (r: Vec<(Ident, SymbolMeta)>)
    ensures
        syms_view(r@) == syms_view(q@),
{
    let mut r: Vec<(Ident, SymbolMeta)> = Vec::new();
    let n = q.len();
    for i in 0..n
        invariant
            n == q@.len(),
            r@.len() == i,
            forall|t: int| 0 <= t < i ==> syms_view(r@)[t] == syms_view(q@)[t],
        decreases n - i,
    {
        let name = q[i].0.clone();
        let m = &q[i].1;
        r.push(
            (
                name,
                SymbolMeta {
                    type_kind: clone_type(&m.type_kind),
                    stack_offset: m.stack_offset,
                    is_static: m.is_static,
                },
            ),
        );
        proof {
            assert(syms_view(r@)[i as int] == syms_view(q@)[i as int]);
        }
    }
    proof {
        assert(syms_view(r@) =~= syms_view(q@));
    }
    r
}

/// Generates a bytecode program from a resolved syntax tree and its
/// metadata, exactly as `spec_codegen` describes: the static section is
/// laid out in table order (in-parameters then out-parameters), a sizing
/// pass fixes every function's entry address, and the emitting pass then
/// compiles every body, in declaration order, against the completed table,
/// so a call may name a function declared later.
#[verifier::rlimit(100)]
#[verifier::spinoff_prover]
#[verifier::loop_isolation(false)]
pub fn codegen(ast: &Program, data: ProgramData) -> (r: Result<VMProgram, CompileError>)
    ensures
        match spec_codegen(ast@, data@) {
            Ok(vp) => r matches Ok(p) && p@ == vp,
            Err(_) => r matches Err(ce) && ce@ == CompileErrorV::Internal,
        },
{
    let ghost pv = ast@;
    let ghost dv = data@;
    let ProgramData { functions: funcs0, global_symbols: mut globals, .. } = data;
    let ghost gv0 = syms_view(globals@);

    let mut off: usize = 0;
    let n_g = globals.len();
    proof {
        assert(gv0.skip(0) =~= gv0);
        assert(syms_view(globals@).take(0) =~= Seq::<(Seq<char>, SymbolMetaV)>::empty());
        assert(Seq::<(Seq<char>, SymbolMetaV)>::empty() + gv0 =~= gv0);
    }
    for i in 0..n_g
        invariant
            n_g == globals@.len(),
            off <= 0xFFFF,
            syms_view(globals@).skip(i as int) == gv0.skip(i as int),
            spec_assign_globals(gv0, 0) == (match spec_assign_globals(
                gv0.skip(i as int),
                off as int,
            ) {
                Ok((rest, end)) => Ok::<(Seq<(Seq<char>, SymbolMetaV)>, int), ()>(
                    (syms_view(globals@).take(i as int) + rest, end),
                ),
                Err(e) => Err::<(Seq<(Seq<char>, SymbolMetaV)>, int), ()>(e),
            }),
        decreases n_g - i,
    {
        proof {
            assert(gv0.skip(i as int)[0] == syms_view(globals@)[i as int]);
            assert(gv0.skip(i as int).drop_first() =~= gv0.skip(i + 1));
        }
        let size = globals[i].1.type_kind.size();
        if off + size > 0xFFFF {
            return Err(CompileError::Internal);
        }
        let name = globals[i].0.clone();
        let ty = clone_type(&globals[i].1.type_kind);
        let is_static = globals[i].1.is_static;
        let ghost old_g = globals@;
        globals.set(i, (name, SymbolMeta { type_kind: ty, stack_offset: Some(off), is_static }));
        off = off + size;
        proof {
            assert(syms_view(globals@).skip(i + 1) =~= syms_view(old_g).skip(i + 1));
            assert(syms_view(globals@).take(i + 1) =~= syms_view(old_g).take(i as int).push(
                syms_view(globals@)[i as int],
            ));
            if let Ok((rest, end)) = spec_assign_globals(gv0.skip(i + 1), off as int) {
                assert(syms_view(old_g).take(i as int) + (seq![syms_view(globals@)[i as int]]
                    + rest) =~= syms_view(globals@).take(i + 1) + rest);
            }
        }
    }
    let static_size = off;
    proof {
        assert(gv0.skip(n_g as int).len() == 0);
        assert(syms_view(globals@).take(n_g as int) =~= syms_view(globals@));
        assert(syms_view(globals@).take(n_g as int) + Seq::<(Seq<char>, SymbolMetaV)>::empty()
            =~= syms_view(globals@));
        assert(spec_assign_globals(gv0, 0) == Ok::<(Seq<(Seq<char>, SymbolMetaV)>, int), ()>(
            (syms_view(globals@), static_size as int),
        ));
    }

    let table0 = placed_table(&funcs0);
    proof {
        assert(funcs_view(funcs0@) == dv.functions);
        assert(funcs_view(table0@) == spec_placed_table(dv.functions));
    }
    let sized = match gen_functions(ast, &funcs0, &globals, &table0) {
        Ok((_, fs)) => fs,
        Err(_) => {
            return Err(CompileError::Internal);
        },
    };
    let (code, funcs) = match gen_functions(ast, &funcs0, &globals, &sized) {
        Ok(t) => t,
        Err(_) => {
            return Err(CompileError::Internal);
        },
    };

    Ok(
        VMProgram {
            code,
            data: ProgramData {
                functions: funcs,
                global_symbols: globals,
                min_stack_size: static_size + 1024,
                static_section_size: static_size,
            },
        },
    )
}

/// Compiles every function in declaration order against a fixed call table,
/// exactly as `spec_gen_fns` describes.
#[verifier::rlimit(100)]
#[verifier::spinoff_prover]
#[verifier::loop_isolation(false)]
fn gen_functions(
    ast: &Program,
    metas: &Vec<(Ident, FuncMeta)>,
    globals: &Vec<(Ident, SymbolMeta)>,
    table: &Vec<(Ident, FuncMeta)>,
) -> (r: Result<(Vec<MemoryCell>, Vec<(Ident, FuncMeta)>), CompileError>)
    ensures
        match spec_gen_fns(
            ast@.functions,
            funcs_view(metas@),
            syms_view(globals@),
            funcs_view(table@),
            Seq::empty(),
        ) {
            Ok((c, fs)) => r matches Ok(t) && code_view(t.0@) == c && funcs_view(t.1@) == fs,
            Err(_) => r matches Err(ce) && ce@ == CompileErrorV::Internal,
        },
{
    let ghost pv = ast@;
    let ghost gv = syms_view(globals@);
    let ghost tv = funcs_view(table@);
    let mut funcs = clone_func_table(metas);
    let mut code: Vec<MemoryCell> = Vec::new();
    let n_f = ast.functions.len();
    proof {
        assert(pv.functions.skip(0) =~= pv.functions);
        assert(code_view(code@) =~= Seq::<u32>::empty());
    }
    for i in 0..n_f
        invariant
            n_f == ast.functions@.len(),
            spec_gen_fns(pv.functions, funcs_view(metas@), gv, tv, Seq::empty()) == spec_gen_fns(
                pv.functions.skip(i as int),
                funcs_view(funcs@),
                gv,
                tv,
                code_view(code@),
            ),
        decreases n_f - i,
    {
        proof {
            assert(pv.functions.skip(i as int)[0] == pv.functions[i as int]);
            assert(pv.functions.skip(i as int).drop_first() =~= pv.functions.skip(i + 1));
            assert(pv.functions[i as int] == ast.functions@[i as int]@);
        }
        let f = &ast.functions[i];
        let addr = code.len();
        if addr > 0xFFFF {
            return Err(CompileError::Internal);
        }
        let mut locals = match lookup_func_table(&funcs, &f.ident.item) {
            Some(meta) => clone_sym_table(&meta.symbols),
            None => {
                return Err(CompileError::Internal);
            },
        };
        let ghost meta_v = spec_lookup_func(funcs_view(funcs@), f.ident.item@)->Some_0;
        let ghost stmtsv = pv.functions[i as int].statements;
        let ghost c_entry = code_view(code@);
        let mut stack_offset: usize = 0;
        let mut has_return = false;
        let n_s = f.statements.len();
        proof {
            assert(stmtsv.skip(0) =~= stmtsv);
            assert(stmtsv.len() == f.statements@.len());
        }
        for j in 0..n_s
            invariant
                n_s == f.statements@.len(),
                f == &ast.functions[i as int],
                stack_offset <= 0xFFFF,
                stmtsv == pv.functions[i as int].statements,
                spec_gen_stmts(stmtsv, meta_v.symbols, 0, false, gv, tv, c_entry)
                    == spec_gen_stmts(
                    stmtsv.skip(j as int),
                    syms_view(locals@),
                    stack_offset as int,
                    has_return,
                    gv,
                    tv,
                    code_view(code@),
                ),
            decreases n_s - j,
        {
            proof {
                assert(stmtsv.skip(j as int)[0] == stmtsv[j as int]);
                assert(stmtsv.skip(j as int).drop_first() =~= stmtsv.skip(j + 1));
                assert(stmtsv[j as int] == f.statements@[j as int]@);
            }
            if !has_return {
            match &f.statements[j] {
                Statement::Assignment(name, e) => {
                    match generate_expr(&mut code, e, &locals, globals, table) {
                        Ok(_) => (),
                        Err(_) => {
                            return Err(CompileError::Internal);
                        },
                    }
                    match lookup_sym_table(globals, &name.item) {
                        Some(g) => {
                            let goff = match g.stack_offset {
                                Some(o) => o,
                                None => {
                                    return Err(CompileError::Internal);
                                },
                            };
                            let size = g.type_kind.size();
                            if size > 0x10000 || goff > 0x10000 - size {
                                return Err(CompileError::Internal);
                            }
                            let chunks = size / 4;
                            let ghost c_pre = code_view(code@);
                            for k in 0..chunks
                                invariant
                                    chunks == size / 4,
                                    size <= 0x10000,
                                    goff + size <= 0x10000,
                                    code_view(code@) == c_pre + spec_store_cells(
                                        goff as int,
                                        size as int,
                                    ).take(k as int),
                                decreases chunks - k,
                            {
                                proof {
                                    assert(4 * (k as int) + 4 <= size as int);
                                    assert((k as int) < (size as int) / 4);
                                    assert(spec_store_cells(goff as int, size as int)[k as int]
                                        == spec_cell_of(
                                        OpCode::Mov4Global,
                                        ((goff as int) + (size as int) - 4 - 4 * (
                                        k as int)) as u16,
                                    ));
                                    assert(((goff as int) + (size as int) - 4 - 4 * (
                                    k as int)) as u16 == (goff + size - 4 - 4 * k) as u16);
                                }
                                let ghost prevc = code_view(code@);
                                code.push(
                                    MemoryCell::with_data(
                                        OpCode::Mov4Global,
                                        (goff + size - 4 - 4 * k) as u16,
                                    ),
                                );
                                proof {
                                    assert(code_view(code@) =~= prevc.push(
                                        spec_cell_of(
                                            OpCode::Mov4Global,
                                            ((goff as int) + (size as int) - 4 - 4 * (
                                            k as int)) as u16,
                                        ),
                                    ));
                                    assert(prevc.push(
                                        spec_cell_of(
                                            OpCode::Mov4Global,
                                            ((goff as int) + (size as int) - 4 - 4 * (
                                            k as int)) as u16,
                                        ),
                                    ) =~= c_pre + spec_store_cells(
                                        goff as int,
                                        size as int,
                                    ).take(k + 1));
                                }
                            }
                            proof {
                                assert(spec_store_cells(goff as int, size as int).take(
                                    chunks as int,
                                ) =~= spec_store_cells(goff as int, size as int));
                            }
                        },
                        None => {
                            let ty = match type_of_expr(e, &locals, globals, table) {
                                Ok(t) => t,
                                Err(_) => {
                                    return Err(CompileError::Internal);
                                },
                            };
                            let size = ty.size();
                            if stack_offset + size > 0xFFFF {
                                return Err(CompileError::Internal);
                            }
                            let ghost tyv = ty@;
                            insert_sym_table(
                                &mut locals,
                                name.item.clone(),
                                SymbolMeta {
                                    type_kind: ty,
                                    stack_offset: Some(stack_offset),
                                    is_static: false,
                                },
                            );
                            stack_offset = stack_offset + size;
                        },
                    }
                },
                Statement::Return(e) => {
                    match generate_expr(&mut code, e, &locals, globals, table) {
                        Ok(_) => (),
                        Err(_) => {
                            return Err(CompileError::Internal);
                        },
                    }
                    let ghost c_r = code_view(code@);
                    code.push(MemoryCell::with_data(OpCode::Ret, stack_offset as u16));
                    has_return = true;
                    proof {
                        assert(code_view(code@) =~= c_r + seq![
                            spec_cell_of(OpCode::Ret, (stack_offset as int) as u16),
                        ]);
                    }
                },
            }
            }
        }
        proof {
            assert(stmtsv.skip(n_s as int).len() == 0);
        }
        if !has_return {
            let ghost c_v = code_view(code@);
            code.push(MemoryCell::plain_inst(OpCode::Void));
            code.push(MemoryCell::with_data(OpCode::Ret, stack_offset as u16));
            proof {
                assert(code_view(code@) =~= c_v + seq![
                    spec_cell_of(OpCode::Void, 0),
                    spec_cell_of(OpCode::Ret, (stack_offset as int) as u16),
                ]);
            }
        }
        insert_func_table(
            &mut funcs,
            f.ident.item.clone(),
            FuncMeta { symbols: locals, address: Some(addr) },
        );
    }
    proof {
        assert(pv.functions.skip(n_f as int).len() == 0);
    }
    Ok((code, funcs))
}

/// The function table with every entry address provisionally set, exactly
/// as `spec_placed_table` describes: what the sizing pass generates against.
fn placed_table(q: &Vec<(Ident, FuncMeta)>) -> (r: Vec<(Ident, FuncMeta)>)
    ensures
        funcs_view(r@) == spec_placed_table(funcs_view(q@)),
{
    let mut r: Vec<(Ident, FuncMeta)> = Vec::new();
    let n = q.len();
    for i in 0..n
        invariant
            n == q@.len(),
            r@.len() == i,
            forall|t: int|
                0 <= t < i ==> funcs_view(r@)[t] == spec_placed_table(funcs_view(q@))[t],
        decreases n - i,
    {
        let name = q[i].0.clone();
        let m = &q[i].1;
        let ghost old_r = r@;
        r.push((name, FuncMeta { symbols: clone_sym_table(&m.symbols), address: Some(0) }));
        proof {
            assert(spec_placed_table(funcs_view(q@))[i as int] == (
                funcs_view(q@)[i as int].0,
                FuncMetaV { symbols: funcs_view(q@)[i as int].1.symbols, address: Some(0int) },
            ));
            assert(funcs_view(r@)[i as int] == spec_placed_table(funcs_view(q@))[i as int]);
            assert forall|t: int| 0 <= t < i implies funcs_view(r@)[t] == spec_placed_table(
                funcs_view(q@),
            )[t] by {
                assert(funcs_view(r@)[t] == funcs_view(old_r)[t]);
            }
        }
    }
    proof {
        assert(funcs_view(r@) =~= spec_placed_table(funcs_view(q@)));
    }
    r
}

/// An equal copy of a function table.
fn clone_func_table(q: &Vec<(Ident, FuncMeta)>) -> (r: Vec<(Ident, FuncMeta)>)
    ensures
        funcs_view(r@) == funcs_view(q@),
{
    let mut r: Vec<(Ident, FuncMeta)> = Vec::new();
    let n = q.len();
    for i in 0..n
        invariant
            n == q@.len(),
            r@.len() == i,
            forall|t: int| 0 <= t < i ==> funcs_view(r@)[t] == funcs_view(q@)[t],
        decreases n - i,
    {
        let name = q[i].0.clone();
        let m = &q[i].1;
        r.push((name, FuncMeta { symbols: clone_sym_table(&m.symbols), address: m.address }));
        proof {
            assert(funcs_view(r@)[i as int] == funcs_view(q@)[i as int]);
        }
    }
    proof {
        assert(funcs_view(r@) =~= funcs_view(q@));
    }
    r
}

impl VMProgram {
    /// An equal copy of the compiled program, so one compilation can drive
    /// several independently running machines: the program itself is never
    /// mutated, and each machine owns an equal value of it.
    pub fn duplicate(&self) -> (r: VMProgram)
        ensures
            r@ == self@,
    {
        let mut code: Vec<MemoryCell> = Vec::new();
        let n = self.code.len();
        for i in 0..n
            invariant
                n == self.code@.len(),
                code@.len() == i,
                forall|t: int| 0 <= t < i ==> code@[t] == self.code@[t],
            decreases n - i,
        {
            code.push(self.code[i]);
        }
        let r = VMProgram {
            code,
            data: ProgramData {
                functions: clone_func_table(&self.data.functions),
                global_symbols: clone_sym_table(&self.data.global_symbols),
                min_stack_size: self.data.min_stack_size,
                static_section_size: self.data.static_section_size,
            },
        };
        proof {
            assert(code_view(r.code@) =~= code_view(self.code@));
        }
        r
    }
}

/// Compiles a parsed program: resolution, then code generation. Returns
/// exactly what `spec_compile` describes: a typed resolution error on bad
/// input, an internal fault only if the generator rejects its own resolved
/// data.
pub fn compile(ast: &Program) -> (r: Result<VMProgram, CompileError>)
    ensures
        match spec_compile(ast@) {
            Ok(vp) => r matches Ok(p) && p@ == vp,
            Err(e) => r matches Err(ce) && ce@ == e,
        },
{
    let data = match crate::compiler::resolve_types::resolve(ast) {
        Ok(d) => d,
        Err(e) => {
            return Err(CompileError::Resolve(e));
        },
    };
    match codegen(ast, data) {
        Ok(p) => Ok(p),
        Err(_) => Err(CompileError::Internal),
    }
}

/// What compiling source text yields: scanning, parsing, resolution and
/// code generation in sequence, with the first failure reported.
pub open spec fn spec_compile_source(s: Seq<char>) -> Result<VMProgramV, CompileErrorV> {
    match crate::parser::spec_parse_source(s) {
        Ok(pv) => spec_compile(pv),
        Err(e) => Err(CompileErrorV::Source(e)),
    }
}

/// Compiles source text end to end, exactly as `spec_compile_source`
/// describes.
pub fn compile_source(source: &str) -> (r: Result<VMProgram, CompileError>)
    requires
        source@.len() < 0x2000_0000,
    ensures
        match spec_compile_source(source@) {
            Ok(vp) => r matches Ok(p) && p@ == vp,
            Err(e) => r matches Err(ce) && ce@ == e,
        },
{
    let ast = match crate::parser::parse(source) {
        Ok(p) => p,
        Err(e) => {
            return Err(CompileError::Source(e));
        },
    };
    compile(&ast)
}

/// Compiling equal characters yields equal bytecode: the pipeline is a
/// function of the source text alone, with no ambient state.
pub proof fn lemma_compile_deterministic(s1: Seq<char>, s2: Seq<char>)
    requires
        s1 == s2,
    ensures
        spec_compile_source(s1) == spec_compile_source(s2),
{
}

/// The base offset of the `i`-th static symbol: the base plus the sizes of
/// everything before it.
pub open spec fn spec_prefix_size(gs: Seq<(Seq<char>, SymbolMetaV)>, off: int, i: int) -> int
    decreases i,
{
    if i <= 0 {
        off
    } else {
        spec_prefix_size(gs, off, i - 1) + type_size(gs[i - 1].1.type_kind)
    }
}

/// Static-section offsets are assigned in table order with no gaps: each
/// symbol sits exactly at the sum of the sizes of those before it, four
/// bytes per scalar and twelve per 3-vector, and the section's size is the
/// sum of them all.
pub proof fn lemma_static_layout(gs: Seq<(Seq<char>, SymbolMetaV)>, off: int)
    requires
        spec_assign_globals(gs, off) is Ok,
    ensures
        ({
            let r = spec_assign_globals(gs, off)->Ok_0;
            r.0.len() == gs.len() && r.1 == spec_prefix_size(gs, off, gs.len() as int) && forall|
                i: int,
            |
                0 <= i < gs.len() ==> (#[trigger] r.0[i]).0 == gs[i].0 && r.0[i].1.type_kind
                    == gs[i].1.type_kind && r.0[i].1.is_static == gs[i].1.is_static && r.0[
                    i
                ].1.stack_offset == Some(spec_prefix_size(gs, off, i))
        }),
    decreases gs.len(),
{
    if gs.len() > 0 {
        let size = type_size(gs[0].1.type_kind);
        let dg = gs.drop_first();
        lemma_static_layout(dg, off + size);
        let r = spec_assign_globals(gs, off)->Ok_0;
        let rr = spec_assign_globals(dg, off + size)->Ok_0;
        assert(forall|t: int| 0 <= t < dg.len() ==> #[trigger] dg[t] == gs[t + 1]);
        assert forall|i: int| 0 <= i <= dg.len() implies #[trigger] spec_prefix_size(
            dg,
            off + size,
            i,
        ) == spec_prefix_size(gs, off, i + 1) by {
            lemma_prefix_size_shift(gs, off, i);
        }
        assert(r.0.len() == gs.len());
        assert(spec_prefix_size(dg, off + size, dg.len() as int) == spec_prefix_size(
            gs,
            off,
            gs.len() as int,
        ));
        assert(r.1 == spec_prefix_size(gs, off, gs.len() as int));
        assert forall|i: int| 0 <= i < gs.len() implies (#[trigger] r.0[i]).0 == gs[i].0 && r.0[
            i
        ].1.type_kind == gs[i].1.type_kind && r.0[i].1.is_static == gs[i].1.is_static && r.0[
            i
        ].1.stack_offset == Some(spec_prefix_size(gs, off, i)) by {
            if i > 0 {
                assert(r.0[i] == rr.0[i - 1]);
                assert(spec_prefix_size(dg, off + size, i - 1) == spec_prefix_size(gs, off, i));
                assert(rr.0[i - 1].1.stack_offset == Some(
                    spec_prefix_size(dg, off + size, i - 1),
                ));
            } else {
                assert(spec_prefix_size(gs, off, 0) == off);
            }
        }
    }
}

/// The static section of a compiled program lays the in-parameters out
/// first, then the out-parameters, in declaration order: the first slot at
/// offset zero and each later slot at the previous offset plus the previous
/// slot's size (four bytes per scalar, twelve per 3-vector), contiguously,
/// every slot marked static; `static_section_size` is the sum of all the
/// slots. Parameter names must be pairwise distinct, since the symbol table
/// keeps one entry per name.
pub proof fn lemma_static_section_layout(p: ProgramV)
    requires
        crate::compiler::resolve_types::spec_resolve(p) is Ok,
        spec_codegen(p, crate::compiler::resolve_types::spec_resolve(p)->Ok_0) is Ok,
        forall|i: int, j: int|
            0 <= i < j < p.in_parameters.len() ==> p.in_parameters[i].ident
                != p.in_parameters[j].ident,
        forall|i: int, j: int|
            0 <= i < j < p.out_parameters.len() ==> p.out_parameters[i].ident
                != p.out_parameters[j].ident,
        forall|i: int, j: int|
            0 <= i < p.in_parameters.len() && 0 <= j < p.out_parameters.len() ==> (
            #[trigger] p.in_parameters[i]).ident != (#[trigger] p.out_parameters[j]).ident,
    ensures
        ({
            let d = crate::compiler::resolve_types::spec_resolve(p)->Ok_0;
            let vp = spec_codegen(p, d)->Ok_0;
            let params = p.in_parameters.map_values(
                |q: crate::ast::ParameterV| crate::compiler::resolve_types::param_entry(q),
            ) + p.out_parameters.map_values(
                |q: crate::ast::ParameterV| crate::compiler::resolve_types::param_entry(q),
            );
            vp.data.global_symbols.len() == p.in_parameters.len() + p.out_parameters.len()
                && (forall|i: int|
                0 <= i < params.len() ==> (#[trigger] vp.data.global_symbols[i]).0 == params[i].0
                    && vp.data.global_symbols[i].1.type_kind == params[i].1.type_kind
                    && vp.data.global_symbols[i].1.is_static
                    && vp.data.global_symbols[i].1.stack_offset == Some(
                    spec_prefix_size(params, 0, i),
                )) && vp.data.static_section_size == spec_prefix_size(
                params,
                0,
                params.len() as int,
            )
        }),
{
    crate::compiler::resolve_types::lemma_resolve_globals_order(p);
    let d = crate::compiler::resolve_types::spec_resolve(p)->Ok_0;
    lemma_static_layout(d.global_symbols, 0);
}

proof fn lemma_prefix_size_shift(gs: Seq<(Seq<char>, SymbolMetaV)>, off: int, i: int)
    requires
        gs.len() > 0,
        0 <= i <= gs.len() - 1,
    ensures
        spec_prefix_size(gs.drop_first(), off + type_size(gs[0].1.type_kind), i)
            == spec_prefix_size(gs, off, i + 1),
    decreases i,
{
    if i > 0 {
        lemma_prefix_size_shift(gs, off, i - 1);
        assert(gs.drop_first()[i - 1] == gs[i]);
        assert(spec_prefix_size(gs.drop_first(), off + type_size(gs[0].1.type_kind), i)
            == spec_prefix_size(gs.drop_first(), off + type_size(gs[0].1.type_kind), i - 1)
            + type_size(gs.drop_first()[i - 1].1.type_kind));
        assert(spec_prefix_size(gs, off, i + 1) == spec_prefix_size(gs, off, i) + type_size(
            gs[i].1.type_kind,
        ));
    } else {
        assert(spec_prefix_size(gs.drop_first(), off + type_size(gs[0].1.type_kind), 0) == off
            + type_size(gs[0].1.type_kind));
        assert(spec_prefix_size(gs, off, 1) == spec_prefix_size(gs, off, 0) + type_size(
            gs[0].1.type_kind,
        ));
        assert(spec_prefix_size(gs, off, 0) == off);
    }
}

/// Whether a cell encodes a `Ret` instruction, whatever its operand.
pub open spec fn is_ret_cell(c: u32) -> bool {
    exists|p: u16| c == spec_cell_of(OpCode::Ret, p)
}

/// Expression code only appends to the buffer.
proof fn lemma_gen_expr_extends(
    e: ExprV,
    locals: Seq<(Seq<char>, SymbolMetaV)>,
    globals: Seq<(Seq<char>, SymbolMetaV)>,
    funcs: Seq<(Seq<char>, FuncMetaV)>,
    code: Seq<u32>,
)
    requires
        spec_gen_expr(e, locals, globals, funcs, code) is Ok,
    ensures
        spec_gen_expr(e, locals, globals, funcs, code)->Ok_0.len() >= code.len(),
    decreases e, 0int,
{
    match e {
        ExprV::UnaryOp(op, e1) => {
            lemma_gen_expr_extends(*e1, locals, globals, funcs, code);
        },
        ExprV::BinaryOp(op, a, b) => {
            lemma_gen_expr_extends(*a, locals, globals, funcs, code);
            let c1 = spec_gen_expr(*a, locals, globals, funcs, code)->Ok_0;
            lemma_gen_expr_extends(*b, locals, globals, funcs, c1);
        },
        ExprV::FuncCall(name, args) => {
            lemma_gen_exprs_extends(args, locals, globals, funcs, code);
        },
        _ => (),
    }
}

proof fn lemma_gen_exprs_extends(
    es: Seq<ExprV>,
    locals: Seq<(Seq<char>, SymbolMetaV)>,
    globals: Seq<(Seq<char>, SymbolMetaV)>,
    funcs: Seq<(Seq<char>, FuncMetaV)>,
    code: Seq<u32>,
)
    requires
        spec_gen_exprs(es, locals, globals, funcs, code) is Ok,
    ensures
        spec_gen_exprs(es, locals, globals, funcs, code)->Ok_0.len() >= code.len(),
    decreases es, es.len() + 1,
{
    if es.len() > 0 {
        lemma_gen_expr_extends(es[0], locals, globals, funcs, code);
        let c1 = spec_gen_expr(es[0], locals, globals, funcs, code)->Ok_0;
        lemma_gen_exprs_extends(es.subrange(1, es.len() as int), locals, globals, funcs, c1);
    }
}

/// Expression code leaves what was already in the buffer untouched: the
/// output starts with the input.
pub proof fn lemma_gen_expr_prefix(
    e: ExprV,
    locals: Seq<(Seq<char>, SymbolMetaV)>,
    globals: Seq<(Seq<char>, SymbolMetaV)>,
    funcs: Seq<(Seq<char>, FuncMetaV)>,
    code: Seq<u32>,
)
    requires
        spec_gen_expr(e, locals, globals, funcs, code) is Ok,
    ensures
        spec_gen_expr(e, locals, globals, funcs, code)->Ok_0.len() >= code.len(),
        spec_gen_expr(e, locals, globals, funcs, code)->Ok_0.take(code.len() as int) == code,
    decreases e, 0int,
{
    lemma_gen_expr_extends(e, locals, globals, funcs, code);
    let out = spec_gen_expr(e, locals, globals, funcs, code)->Ok_0;
    match e {
        ExprV::UnaryOp(op, e1) => {
            lemma_gen_expr_prefix(*e1, locals, globals, funcs, code);
            let c1 = spec_gen_expr(*e1, locals, globals, funcs, code)->Ok_0;
            assert(out.take(code.len() as int) =~= c1.take(code.len() as int));
        },
        ExprV::BinaryOp(op, a, b) => {
            lemma_gen_expr_prefix(*a, locals, globals, funcs, code);
            let c1 = spec_gen_expr(*a, locals, globals, funcs, code)->Ok_0;
            lemma_gen_expr_prefix(*b, locals, globals, funcs, c1);
            let c2 = spec_gen_expr(*b, locals, globals, funcs, c1)->Ok_0;
            assert(c2.take(code.len() as int) =~= c1.take(code.len() as int));
            assert(out.take(code.len() as int) =~= c2.take(code.len() as int));
        },
        ExprV::FuncCall(name, args) => {
            lemma_gen_exprs_prefix(args, locals, globals, funcs, code);
            let c1 = spec_gen_exprs(args, locals, globals, funcs, code)->Ok_0;
            assert(out.take(code.len() as int) =~= c1.take(code.len() as int));
        },
        _ => {
            assert(out.take(code.len() as int) =~= code);
        },
    }
}

/// Argument-list code leaves the buffer's prior contents untouched too.
pub proof fn lemma_gen_exprs_prefix(
    es: Seq<ExprV>,
    locals: Seq<(Seq<char>, SymbolMetaV)>,
    globals: Seq<(Seq<char>, SymbolMetaV)>,
    funcs: Seq<(Seq<char>, FuncMetaV)>,
    code: Seq<u32>,
)
    requires
        spec_gen_exprs(es, locals, globals, funcs, code) is Ok,
    ensures
        spec_gen_exprs(es, locals, globals, funcs, code)->Ok_0.len() >= code.len(),
        spec_gen_exprs(es, locals, globals, funcs, code)->Ok_0.take(code.len() as int) == code,
    decreases es, es.len() + 1,
{
    lemma_gen_exprs_extends(es, locals, globals, funcs, code);
    if es.len() == 0 {
        assert(spec_gen_exprs(es, locals, globals, funcs, code)->Ok_0.take(code.len() as int)
            =~= code);
    } else {
        lemma_gen_expr_prefix(es[0], locals, globals, funcs, code);
        let c1 = spec_gen_expr(es[0], locals, globals, funcs, code)->Ok_0;
        lemma_gen_exprs_prefix(es.subrange(1, es.len() as int), locals, globals, funcs, c1);
        let out = spec_gen_exprs(es, locals, globals, funcs, code)->Ok_0;
        assert(out.take(code.len() as int) =~= c1.take(code.len() as int));
    }
}

/// The statement walk only appends; once it has emitted a return, it stops,
/// so a walk that saw a return leaves a buffer ending in that `Ret`.
proof fn lemma_gen_stmts_ret_last(
    sts: Seq<StatementV>,
    locals: Seq<(Seq<char>, SymbolMetaV)>,
    off0: int,
    hr0: bool,
    globals: Seq<(Seq<char>, SymbolMetaV)>,
    funcs: Seq<(Seq<char>, FuncMetaV)>,
    code: Seq<u32>,
)
    requires
        spec_gen_stmts(sts, locals, off0, hr0, globals, funcs, code) is Ok,
    ensures
        ({
            let t = spec_gen_stmts(sts, locals, off0, hr0, globals, funcs, code)->Ok_0;
            t.0.len() >= code.len() && (hr0 ==> t.0 == code && t.3) && (!hr0 && t.3 ==> t.0.len()
                > code.len() && is_ret_cell(t.0.last()))
        }),
    decreases sts.len(),
{
    if sts.len() == 0 || hr0 {
    } else {
        match sts[0] {
            StatementV::Assignment(name, e) => {
                lemma_gen_expr_extends(e, locals, globals, funcs, code);
                let c1 = spec_gen_expr(e, locals, globals, funcs, code)->Ok_0;
                match spec_lookup_sym(globals, name) {
                    Some(g) => {
                        let goff = g.stack_offset->Some_0;
                        let size = type_size(g.type_kind);
                        lemma_gen_stmts_ret_last(
                            sts.drop_first(),
                            locals,
                            off0,
                            false,
                            globals,
                            funcs,
                            c1 + spec_store_cells(goff, size),
                        );
                    },
                    None => {
                        let ty = spec_type_of(e, locals, globals, funcs)->Ok_0;
                        lemma_gen_stmts_ret_last(
                            sts.drop_first(),
                            crate::compiler::program_data::spec_insert_sym(
                                locals,
                                name,
                                SymbolMetaV {
                                    type_kind: ty,
                                    stack_offset: Some(off0),
                                    is_static: false,
                                },
                            ),
                            off0 + type_size(ty),
                            false,
                            globals,
                            funcs,
                            c1,
                        );
                    },
                }
            },
            StatementV::Return(e) => {
                lemma_gen_expr_extends(e, locals, globals, funcs, code);
                let c1 = spec_gen_expr(e, locals, globals, funcs, code)->Ok_0;
                let c2 = c1 + seq![spec_cell_of(OpCode::Ret, off0 as u16)];
                lemma_gen_stmts_ret_last(
                    sts.drop_first(),
                    locals,
                    off0,
                    true,
                    globals,
                    funcs,
                    c2,
                );
                assert(c2.last() == spec_cell_of(OpCode::Ret, off0 as u16));
                assert(is_ret_cell(c2.last()));
            },
        }
    }
}

/// Every compiled function ends in exactly one `Ret`: the body's walk stops
/// emitting at its first return, and a body without one gets the
/// synthesized void return, so the function's final cell is its single
/// `Ret` carrying the frame's local byte size.
pub proof fn lemma_function_ends_in_ret(
    f: FunctionDeclarationV,
    meta: FuncMetaV,
    globals: Seq<(Seq<char>, SymbolMetaV)>,
    table: Seq<(Seq<char>, FuncMetaV)>,
    code: Seq<u32>,
)
    requires
        spec_gen_fn(f, meta, globals, table, code) is Ok,
    ensures
        ({
            let r = spec_gen_fn(f, meta, globals, table, code)->Ok_0;
            r.0.len() > code.len() && is_ret_cell(r.0.last())
        }),
{
    lemma_gen_stmts_ret_last(f.statements, meta.symbols, 0, false, globals, table, code);
    let t = spec_gen_stmts(f.statements, meta.symbols, 0, false, globals, table, code)->Ok_0;
    if !t.3 {
        let c2 = t.0 + seq![
            spec_cell_of(OpCode::Void, 0),
            spec_cell_of(OpCode::Ret, t.2 as u16),
        ];
        assert(c2.last() == spec_cell_of(OpCode::Ret, t.2 as u16));
        assert(is_ret_cell(c2.last()));
    }
}

/// A body without an explicit return is compiled with a synthesized void
/// return: after the body's code comes a `Void` push and then a single
/// `Ret` whose operand is the frame's local byte size, so the compiled
/// function still ends in exactly one `Ret`.
pub proof fn lemma_synthesized_return(
    f: FunctionDeclarationV,
    meta: FuncMetaV,
    globals: Seq<(Seq<char>, SymbolMetaV)>,
    table: Seq<(Seq<char>, FuncMetaV)>,
    code: Seq<u32>,
)
    requires
        code.len() <= 0xFFFF,
        spec_gen_stmts(f.statements, meta.symbols, 0, false, globals, table, code) matches Ok(t)
            && !t.3,
    ensures
        ({
            let t = spec_gen_stmts(
                f.statements,
                meta.symbols,
                0,
                false,
                globals,
                table,
                code,
            )->Ok_0;
            spec_gen_fn(f, meta, globals, table, code) matches Ok(r) && r.0 == t.0 + seq![
                spec_cell_of(OpCode::Void, 0),
                spec_cell_of(OpCode::Ret, t.2 as u16),
            ]
        }),
{
}

} // verus!
