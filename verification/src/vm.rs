//! The virtual machine: loads a compiled program and executes it against a
//! byte-addressable stack with an explicit call/return convention.
//!
//! Execution is specified by the small-step model `spec_step` over
//! `VMState`; `run_fn` runs the fetch-decode-execute loop and returns
//! exactly what iterating `spec_step` yields. Every stack access is
//! bounds-checked and every fault is a typed error.

pub mod compiler;

use crate::ast::{BinaryOperator, ExprV, Literal, UnaryOperator};
use crate::compiler::program_data::{spec_lookup_func, spec_lookup_sym, FuncMetaV, SymbolMetaV};
use crate::compiler::resolve_types::spec_type_of;
use crate::compiler::{
    lemma_cell_round_trip, lemma_gen_expr_prefix, lemma_opcode_round_trip, neg_one_bits,
    spec_cell_of, spec_gen_expr, spec_opcode_of, OpCode, VMProgram,
};
use crate::numerics::{add_bits_of, div_bits_of, mul_bits_of, sub_bits_of};
use vstd::prelude::*;

verus! {

/// A fault during execution: every one aborts the run.
#[derive(Clone, Copy, Debug, PartialEq, Eq, Structural)]
pub enum ExecError {
    StackUnderflow,
    StackOverflow,
    OutOfRangeOffset,
    UnrecognizedOpcode,
    StepLimitExceeded,
}

/// The little-endian bytes of a 32-bit word, lowest first.
pub open spec fn le_bytes(v: u32) -> Seq<u8> {
    seq![
        (v & 0xFF) as u8,
        ((v >> 8) & 0xFF) as u8,
        ((v >> 16) & 0xFF) as u8,
        ((v >> 24) & 0xFF) as u8,
    ]
}

/// The 32-bit word held in four little-endian bytes at offset `i`.
pub open spec fn word_at(s: Seq<u8>, i: int) -> u32 {
    (s[i] as u32) | ((s[i + 1] as u32) << 8) | ((s[i + 2] as u32) << 16) | ((s[i
        + 3] as u32) << 24)
}

/// The stack with the word at offset `i` overwritten.
pub open spec fn spec_write_word(s: Seq<u8>, i: int, v: u32) -> Seq<u8> {
    s.update(i, (v & 0xFF) as u8).update(i + 1, ((v >> 8) & 0xFF) as u8).update(
        i + 2,
        ((v >> 16) & 0xFF) as u8,
    ).update(i + 3, ((v >> 24) & 0xFF) as u8)
}

/// Reading four bytes yields the word they were written from.
pub proof fn lemma_word_round_trip(v: u32)
    ensures
        word_at(le_bytes(v), 0) == v,
{
    assert(((v & 0xFF) as u8 as u32) | ((((v >> 8) & 0xFF) as u8 as u32) << 8) | ((((v >> 16)
        & 0xFF) as u8 as u32) << 16) | ((((v >> 24) & 0xFF) as u8 as u32) << 24) == v)
        by (bit_vector);
}

/// Appends the little-endian bytes of a word.
pub fn push_word(stack: &mut Vec<u8>, v: u32) -> (r: ())
    ensures
        final(stack)@ == old(stack)@ + le_bytes(v),
{
    stack.push((v & 0xFF) as u8);
    stack.push(((v >> 8) & 0xFF) as u8);
    stack.push(((v >> 16) & 0xFF) as u8);
    stack.push(((v >> 24) & 0xFF) as u8);
    proof {
        assert(stack@ =~= old(stack)@ + le_bytes(v));
    }
}

/// Reads the word at a byte offset.
pub fn read_word(stack: &Vec<u8>, i: usize) -> (r: u32)
    requires
        i + 4 <= stack@.len(),
    ensures
        r == word_at(stack@, i as int),
{
    let n = stack.len();
    (stack[i] as u32) | ((stack[i + 1] as u32) << 8) | ((stack[i + 2] as u32) << 16) | ((stack[i
        + 3] as u32) << 24)
}

/// Removes and returns the word on top of the stack.
pub fn pop_word(stack: &mut Vec<u8>) -> (r: u32)
    requires
        old(stack)@.len() >= 4,
    ensures
        final(stack)@ == old(stack)@.take(old(stack)@.len() - 4),
        r == word_at(old(stack)@, old(stack)@.len() - 4),
{
    let n = stack.len();
    let v = read_word(stack, n - 4);
    stack.truncate(n - 4);
    proof {
        assert(stack@ =~= old(stack)@.take(old(stack)@.len() - 4));
    }
    v
}

/// Overwrites the word at a byte offset.
pub fn write_word(stack: &mut Vec<u8>, i: usize, v: u32) -> (r: ())
    requires
        i + 4 <= old(stack)@.len(),
    ensures
        final(stack)@ == spec_write_word(old(stack)@, i as int, v),
{
    let n = stack.len();
    stack.set(i, (v & 0xFF) as u8);
    stack.set(i + 1, ((v >> 8) & 0xFF) as u8);
    stack.set(i + 2, ((v >> 16) & 0xFF) as u8);
    stack.set(i + 3, ((v >> 24) & 0xFF) as u8);
}

/// The run-time state of one execution: the byte stack, the instruction
/// pointer, the current frame's stack base, and the call depth.
pub struct VMState {
    pub stack: Seq<u8>,
    pub isp: int,
    pub base: int,
    pub depth: int,
}

/// What one step yields: a successor state, clean termination with the
/// final stack, or a fault.
pub enum StepResult {
    Next(VMState),
    Done(Seq<u8>),
    Fault(ExecError),
}

/// One fetch-decode-execute step of the machine on the given code.
pub open spec fn spec_step(code: Seq<u32>, s: VMState) -> StepResult {
    if !(0 <= s.isp && s.isp < code.len()) {
        StepResult::Fault(ExecError::OutOfRangeOffset)
    } else {
        let cell = code[s.isp];
        let operand = ((cell >> 16) as u16) as int;
        let len = s.stack.len() as int;
        match spec_opcode_of((cell & 0xFFFF) as u16) {
            None => StepResult::Fault(ExecError::UnrecognizedOpcode),
            Some(op) => match op {
                OpCode::ConstF32 => if s.isp + 1 < code.len() {
                    StepResult::Next(
                        VMState {
                            stack: s.stack + le_bytes(code[s.isp + 1]),
                            isp: s.isp + 2,
                            ..s
                        },
                    )
                } else {
                    StepResult::Fault(ExecError::OutOfRangeOffset)
                },
                OpCode::AddF32 => spec_arith(s, |a: u32, b: u32| add_bits_of(a, b)),
                OpCode::SubF32 => spec_arith(s, |a: u32, b: u32| sub_bits_of(a, b)),
                OpCode::MulF32 => spec_arith(s, |a: u32, b: u32| mul_bits_of(a, b)),
                OpCode::DivF32 => spec_arith(s, |a: u32, b: u32| div_bits_of(a, b)),
                OpCode::MulF32_Vec3 => if len < 16 {
                    StepResult::Fault(ExecError::StackUnderflow)
                } else {
                    let a = word_at(s.stack, len - 16);
                    let x = word_at(s.stack, len - 12);
                    let y = word_at(s.stack, len - 8);
                    let z = word_at(s.stack, len - 4);
                    StepResult::Next(
                        VMState {
                            stack: s.stack.take(len - 16) + le_bytes(mul_bits_of(a, x))
                                + le_bytes(mul_bits_of(a, y)) + le_bytes(mul_bits_of(a, z)),
                            isp: s.isp + 1,
                            ..s
                        },
                    )
                },
                OpCode::Void => StepResult::Next(
                    VMState { stack: s.stack + le_bytes(0), isp: s.isp + 1, ..s },
                ),
                OpCode::Mov4 => if len < 4 {
                    StepResult::Fault(ExecError::StackUnderflow)
                } else if s.base + operand + 4 > len - 4 {
                    StepResult::Fault(ExecError::OutOfRangeOffset)
                } else {
                    let v = word_at(s.stack, len - 4);
                    StepResult::Next(
                        VMState {
                            stack: spec_write_word(
                                s.stack.take(len - 4),
                                s.base + operand,
                                v,
                            ),
                            isp: s.isp + 1,
                            ..s
                        },
                    )
                },
                OpCode::Mov4Global => if len < 4 {
                    StepResult::Fault(ExecError::StackUnderflow)
                } else if operand + 4 > len - 4 {
                    StepResult::Fault(ExecError::OutOfRangeOffset)
                } else {
                    let v = word_at(s.stack, len - 4);
                    StepResult::Next(
                        VMState {
                            stack: spec_write_word(s.stack.take(len - 4), operand, v),
                            isp: s.isp + 1,
                            ..s
                        },
                    )
                },
                OpCode::Load4 => if s.base + operand + 4 > len {
                    StepResult::Fault(ExecError::OutOfRangeOffset)
                } else {
                    StepResult::Next(
                        VMState {
                            stack: s.stack + le_bytes(word_at(s.stack, s.base + operand)),
                            isp: s.isp + 1,
                            ..s
                        },
                    )
                },
                OpCode::Load4Global => if operand + 4 > len {
                    StepResult::Fault(ExecError::OutOfRangeOffset)
                } else {
                    StepResult::Next(
                        VMState {
                            stack: s.stack + le_bytes(word_at(s.stack, operand)),
                            isp: s.isp + 1,
                            ..s
                        },
                    )
                },
                OpCode::Call => StepResult::Next(
                    VMState {
                        stack: s.stack + le_bytes((s.isp + 1) as u32) + le_bytes(s.base as u32),
                        isp: operand,
                        base: len + 8,
                        depth: s.depth + 1,
                    },
                ),
                OpCode::Ret => if s.depth == 0 {
                    // The outermost invocation is the host-initiated entry:
                    // its return discards the frame's locals and the return
                    // value, leaving no stray bytes above the caller's data.
                    if len < operand + 4 {
                        StepResult::Fault(ExecError::StackUnderflow)
                    } else {
                        StepResult::Done(s.stack.take(len - 4 - operand))
                    }
                } else if len < operand + 12 {
                    StepResult::Fault(ExecError::StackUnderflow)
                } else {
                    let rv = word_at(s.stack, len - 4);
                    let sb = word_at(s.stack, len - 4 - operand - 4);
                    let ra = word_at(s.stack, len - 4 - operand - 8);
                    StepResult::Next(
                        VMState {
                            stack: s.stack.take(len - 4 - operand - 8) + le_bytes(rv),
                            isp: ra as int,
                            base: sb as int,
                            depth: s.depth - 1,
                        },
                    )
                },
                OpCode::CallBuiltIn => match crate::builtins::spec_call_builtin(
                    operand,
                    s.stack,
                ) {
                    Ok(st) => StepResult::Next(VMState { stack: st, isp: s.isp + 1, ..s }),
                    Err(e) => StepResult::Fault(e),
                },
                _ => StepResult::Fault(ExecError::UnrecognizedOpcode),
            },
        }
    }
}

/// The effect of a scalar arithmetic opcode: pop the right then the left
/// operand, push the combined value.
pub open spec fn spec_arith(s: VMState, f: spec_fn(u32, u32) -> u32) -> StepResult {
    let len = s.stack.len() as int;
    if len < 8 {
        StepResult::Fault(ExecError::StackUnderflow)
    } else {
        let a = word_at(s.stack, len - 8);
        let b = word_at(s.stack, len - 4);
        StepResult::Next(
            VMState { stack: s.stack.take(len - 8) + le_bytes(f(a, b)), isp: s.isp + 1, ..s },
        )
    }
}

/// Iterates `spec_step` for at most `fuel` steps.
pub enum RunResult {
    Finished(Seq<u8>),
    Faulted(ExecError),
    Out,
}

pub open spec fn spec_run(code: Seq<u32>, s: VMState, fuel: nat) -> RunResult
    decreases fuel,
{
    if fuel == 0 {
        RunResult::Out
    } else {
        match spec_step(code, s) {
            StepResult::Next(s2) => spec_run(code, s2, (fuel - 1) as nat),
            StepResult::Done(st) => RunResult::Finished(st),
            StepResult::Fault(e) => RunResult::Faulted(e),
        }
    }
}

/// Unfolds one step of the bounded run.
pub proof fn lemma_run_unfold(code: Seq<u32>, s: VMState, fuel: nat)
    requires
        fuel > 0,
    ensures
        spec_run(code, s, fuel) == (match spec_step(code, s) {
            StepResult::Next(s2) => spec_run(code, s2, (fuel - 1) as nat),
            StepResult::Done(st) => RunResult::Finished(st),
            StepResult::Fault(e) => RunResult::Faulted(e),
        }),
{
}

/// The stack zero-extended to at least `n` bytes.
pub open spec fn spec_extend_zeros(s: Seq<u8>, n: int) -> Seq<u8> {
    if s.len() >= n {
        s
    } else {
        s + Seq::new((n - s.len()) as nat, |i: int| 0u8)
    }
}

/// The step budget of one `run_fn` invocation. Execution of a program that
/// has not finished within this many steps is aborted with
/// `StepLimitExceeded`, so that every run provably terminates.
pub open spec fn run_limit() -> nat {
    0x1_0000_0000
}

/// The virtual machine: a compiled program, a growable byte stack, and an
/// instruction pointer. One instance exclusively owns its stack.
#[derive(Debug)]
pub struct VirtualMachine {
    pub program: VMProgram,
    pub stack: Vec<u8>,
    pub isp: usize,
}

impl VirtualMachine {
    /// A fresh machine over a compiled program, its stack empty with the
    /// program's minimum stack size reserved up front.
    pub fn new(program: VMProgram) -> (r: VirtualMachine)
        ensures
            r.program == program,
            r.stack@.len() == 0,
            r.isp == 0,
    {
        let stack: Vec<u8> = Vec::with_capacity(program.data.min_stack_size);
        VirtualMachine { program, stack, isp: 0 }
    }

    /// Appends one raw 32-bit word to the byte stack.
    pub fn push_stack_raw(&mut self, data: u32)
        ensures
            final(self).program == old(self).program,
            final(self).isp == old(self).isp,
            final(self).stack@ == old(self).stack@ + le_bytes(data),
    {
        push_word(&mut self.stack, data);
    }

    /// Removes and returns the word on top of the byte stack.
    pub fn pop_stack(&mut self) -> (r: u32)
        requires
            old(self).stack@.len() >= 4,
        ensures
            final(self).program == old(self).program,
            final(self).isp == old(self).isp,
            final(self).stack@ == old(self).stack@.take(old(self).stack@.len() - 4),
            r == word_at(old(self).stack@, old(self).stack@.len() - 4),
    {
        pop_word(&mut self.stack)
    }

    /// Overwrites the word at a byte offset of the stack.
    pub fn write_stack(&mut self, offset: usize, val: u32)
        requires
            offset + 4 <= old(self).stack@.len(),
        ensures
            final(self).program == old(self).program,
            final(self).isp == old(self).isp,
            final(self).stack@ == spec_write_word(old(self).stack@, offset as int, val),
    {
        write_word(&mut self.stack, offset, val);
    }

    /// Reads the word at a byte offset of the stack.
    pub fn load_stack(&self, offset: usize) -> (r: u32)
        requires
            offset + 4 <= self.stack@.len(),
        ensures
            r == word_at(self.stack@, offset as int),
    {
        read_word(&self.stack, offset)
    }

    /// Writes an input channel of the static section by name, growing the
    /// stack with zeroes if the channel's slot does not exist yet. The value
    /// is the bit pattern of the single-precision number.
    pub fn set_in_float(&mut self, ident: &str, val_bits: u32)
        requires
            (spec_lookup_sym(old(self).program@.data.global_symbols, ident@) matches Some(m)
                && m.stack_offset is Some && m.stack_offset->Some_0 + 4 < 0xFFFF_FFFF),
            old(self).stack@.len() < 0xFFFF_FFFF,
        ensures
            final(self).program == old(self).program,
            ({
                let m = spec_lookup_sym(old(self).program@.data.global_symbols, ident@)->Some_0;
                let off = m.stack_offset->Some_0;
                final(self).stack@ == spec_write_word(
                    spec_extend_zeros(old(self).stack@, off + 4),
                    off,
                    val_bits,
                )
            }),
    {
        let key = String::from_str(ident);
        let off = match crate::compiler::program_data::lookup_sym_table(
            &self.program.data.global_symbols,
            &key,
        ) {
            Some(m) => match m.stack_offset {
                Some(o) => o,
                None => {
                    proof {
                        assert(false);
                    }
                    0
                },
            },
            None => {
                proof {
                    assert(false);
                }
                0
            },
        };
        let ghost pre = self.stack@;
        while self.stack.len() < off + 4
            invariant
                off + 4 < 0xFFFF_FFFF,
                pre.len() <= self.stack@.len(),
                self.stack@ == spec_extend_zeros(pre, self.stack@.len() as int),
                self.stack@.len() <= vstd::math::max(pre.len() as int, off + 4),
                self.program == old(self).program,
                self.isp == old(self).isp,
            decreases off + 4 - self.stack@.len(),
        {
            self.stack.push(0u8);
            proof {
                assert(self.stack@ =~= spec_extend_zeros(pre, self.stack@.len() as int));
            }
        }
        proof {
            assert(self.stack@ =~= spec_extend_zeros(pre, off + 4));
        }
        write_word(&mut self.stack, off, val_bits);
    }

    /// Reads an output channel of the static section by name: the bit
    /// pattern of the single-precision number it holds.
    pub fn get_out_float(&mut self, ident: &str) -> (r: u32)
        requires
            (spec_lookup_sym(old(self).program@.data.global_symbols, ident@) matches Some(m)
                && m.stack_offset is Some
                && m.stack_offset->Some_0 + 4 <= old(self).stack@.len()),
        ensures
            *final(self) == *old(self),
            r == word_at(
                old(self).stack@,
                spec_lookup_sym(
                    old(self).program@.data.global_symbols,
                    ident@,
                )->Some_0.stack_offset->Some_0,
            ),
    {
        let key = String::from_str(ident);
        let off = match crate::compiler::program_data::lookup_sym_table(
            &self.program.data.global_symbols,
            &key,
        ) {
            Some(m) => match m.stack_offset {
                Some(o) => o,
                None => {
                    proof {
                        assert(false);
                    }
                    0
                },
            },
            None => {
                proof {
                    assert(false);
                }
                0
            },
        };
        read_word(&self.stack, off)
    }

    /// One fetch-decode-execute step against the machine's own program,
    /// exactly as `spec_step` describes. Yields the new stack base, the new
    /// call depth, and whether the outermost return ended the run.
    #[verifier::rlimit(100)]
    #[verifier::spinoff_prover]
    fn step_once(&mut self, base: usize, depth: u64) -> (r: Result<(usize, u64, bool), ExecError>)
        requires
            depth < 0xFFFF_FFFF_0000_0000u64,
        ensures
            final(self).program == old(self).program,
            ({
                let s_pre = VMState {
                    stack: old(self).stack@,
                    isp: old(self).isp as int,
                    base: base as int,
                    depth: depth as int,
                };
                match spec_step(old(self).program@.code, s_pre) {
                    StepResult::Next(s2) => r matches Ok(t) && !t.2 && final(self).stack@
                        == s2.stack && final(self).isp as int == s2.isp && t.0 as int == s2.base
                        && t.1 as int == s2.depth,
                    StepResult::Done(st) => r matches Ok(t) && t.2 && final(self).stack@ == st,
                    StepResult::Fault(e) => r == Err::<(usize, u64, bool), ExecError>(e),
                }
            }),
    {
        let ghost s_pre = VMState {
            stack: self.stack@,
            isp: self.isp as int,
            base: base as int,
            depth: depth as int,
        };
        let ghost code = self.program@.code;
        if self.isp >= self.program.code.len() {
            return Err(ExecError::OutOfRangeOffset);
        }
        let cell = self.program.code[self.isp];
        proof {
            assert(code[s_pre.isp] == cell.data);
        }
        let (op, operand) = match cell.get_inst() {
            None => {
                return Err(ExecError::UnrecognizedOpcode);
            },
            Some(oo) => oo,
        };
        proof {
            crate::compiler::lemma_cell_round_trip(op, operand);
            crate::compiler::lemma_opcode_round_trip(op);
            assert(spec_opcode_of((cell.data & 0xFFFF) as u16) == Some(op));
            assert(((cell.data >> 16) as u16) == operand);
        }
        match op {
            OpCode::ConstF32 => {
                if self.isp + 1 >= self.program.code.len() {
                    return Err(ExecError::OutOfRangeOffset);
                }
                let data = self.program.code[self.isp + 1].data;
                push_word(&mut self.stack, data);
                self.isp = self.isp + 2;
                Ok((base, depth, false))
            },
            OpCode::AddF32 => {
                if self.stack.len() < 8 {
                    return Err(ExecError::StackUnderflow);
                }
                let b = pop_word(&mut self.stack);
                let a = pop_word(&mut self.stack);
                push_word(&mut self.stack, crate::numerics::add_bits(a, b));
                self.isp = self.isp + 1;
                proof {
                    assert(a == word_at(s_pre.stack, s_pre.stack.len() - 8));
                    assert(self.stack@ =~= s_pre.stack.take(s_pre.stack.len() as int - 8)
                        + le_bytes(add_bits_of(a, b)));
                }
                Ok((base, depth, false))
            },
            OpCode::SubF32 => {
                if self.stack.len() < 8 {
                    return Err(ExecError::StackUnderflow);
                }
                let b = pop_word(&mut self.stack);
                let a = pop_word(&mut self.stack);
                push_word(&mut self.stack, crate::numerics::sub_bits(a, b));
                self.isp = self.isp + 1;
                proof {
                    assert(a == word_at(s_pre.stack, s_pre.stack.len() - 8));
                    assert(self.stack@ =~= s_pre.stack.take(s_pre.stack.len() as int - 8)
                        + le_bytes(sub_bits_of(a, b)));
                }
                Ok((base, depth, false))
            },
            OpCode::MulF32 => {
                if self.stack.len() < 8 {
                    return Err(ExecError::StackUnderflow);
                }
                let b = pop_word(&mut self.stack);
                let a = pop_word(&mut self.stack);
                push_word(&mut self.stack, crate::numerics::mul_bits(a, b));
                self.isp = self.isp + 1;
                proof {
                    assert(a == word_at(s_pre.stack, s_pre.stack.len() - 8));
                    assert(self.stack@ =~= s_pre.stack.take(s_pre.stack.len() as int - 8)
                        + le_bytes(mul_bits_of(a, b)));
                }
                Ok((base, depth, false))
            },
            OpCode::DivF32 => {
                if self.stack.len() < 8 {
                    return Err(ExecError::StackUnderflow);
                }
                let b = pop_word(&mut self.stack);
                let a = pop_word(&mut self.stack);
                push_word(&mut self.stack, crate::numerics::div_bits(a, b));
                self.isp = self.isp + 1;
                proof {
                    assert(a == word_at(s_pre.stack, s_pre.stack.len() - 8));
                    assert(self.stack@ =~= s_pre.stack.take(s_pre.stack.len() as int - 8)
                        + le_bytes(div_bits_of(a, b)));
                }
                Ok((base, depth, false))
            },
            OpCode::MulF32_Vec3 => {
                let len = self.stack.len();
                if len < 16 {
                    return Err(ExecError::StackUnderflow);
                }
                let a = read_word(&self.stack, len - 16);
                let x = read_word(&self.stack, len - 12);
                let y = read_word(&self.stack, len - 8);
                let z = read_word(&self.stack, len - 4);
                self.stack.truncate(len - 16);
                push_word(&mut self.stack, crate::numerics::mul_bits(a, x));
                push_word(&mut self.stack, crate::numerics::mul_bits(a, y));
                push_word(&mut self.stack, crate::numerics::mul_bits(a, z));
                self.isp = self.isp + 1;
                proof {
                    assert(self.stack@ =~= s_pre.stack.take(s_pre.stack.len() as int - 16)
                        + le_bytes(mul_bits_of(a, x)) + le_bytes(mul_bits_of(a, y)) + le_bytes(
                        mul_bits_of(a, z),
                    ));
                }
                Ok((base, depth, false))
            },
            OpCode::Void => {
                push_word(&mut self.stack, 0);
                self.isp = self.isp + 1;
                Ok((base, depth, false))
            },
            OpCode::Mov4 => {
                let len = self.stack.len();
                if len < 4 {
                    return Err(ExecError::StackUnderflow);
                }
                let tlen = len - 4;
                if (operand as usize) + 4 > tlen || base > tlen - 4 - (operand as usize) {
                    return Err(ExecError::OutOfRangeOffset);
                }
                let v = pop_word(&mut self.stack);
                write_word(&mut self.stack, base + (operand as usize), v);
                self.isp = self.isp + 1;
                Ok((base, depth, false))
            },
            OpCode::Mov4Global => {
                let len = self.stack.len();
                if len < 4 {
                    return Err(ExecError::StackUnderflow);
                }
                let tlen = len - 4;
                if (operand as usize) + 4 > tlen {
                    return Err(ExecError::OutOfRangeOffset);
                }
                let v = pop_word(&mut self.stack);
                write_word(&mut self.stack, operand as usize, v);
                self.isp = self.isp + 1;
                Ok((base, depth, false))
            },
            OpCode::Load4 => {
                let len = self.stack.len();
                if (operand as usize) + 4 > len || base > len - 4 - (operand as usize) {
                    return Err(ExecError::OutOfRangeOffset);
                }
                let v = read_word(&self.stack, base + (operand as usize));
                push_word(&mut self.stack, v);
                self.isp = self.isp + 1;
                Ok((base, depth, false))
            },
            OpCode::Load4Global => {
                let len = self.stack.len();
                if (operand as usize) + 4 > len {
                    return Err(ExecError::OutOfRangeOffset);
                }
                let v = read_word(&self.stack, operand as usize);
                push_word(&mut self.stack, v);
                self.isp = self.isp + 1;
                Ok((base, depth, false))
            },
            OpCode::Call => {
                let ra = self.isp + 1;
                push_word(&mut self.stack, #[verifier::truncate] (ra as u32));
                push_word(&mut self.stack, #[verifier::truncate] (base as u32));
                let new_base = self.stack.len();
                self.isp = operand as usize;
                Ok((new_base, depth + 1, false))
            },
            OpCode::Ret => {
                let p = operand as usize;
                let len = self.stack.len();
                if depth == 0 {
                    if len < p + 4 {
                        return Err(ExecError::StackUnderflow);
                    }
                    self.stack.truncate(len - 4 - p);
                    proof {
                        assert(self.stack@ =~= s_pre.stack.take(
                            s_pre.stack.len() as int - 4 - operand as int,
                        ));
                    }
                    return Ok((base, depth, true));
                }
                if len < p + 12 {
                    return Err(ExecError::StackUnderflow);
                }
                let rv = read_word(&self.stack, len - 4);
                let sb = read_word(&self.stack, len - 4 - p - 4);
                let ra = read_word(&self.stack, len - 4 - p - 8);
                self.stack.truncate(len - 4 - p - 8);
                push_word(&mut self.stack, rv);
                self.isp = ra as usize;
                proof {
                    assert(self.stack@ =~= s_pre.stack.take(
                        s_pre.stack.len() as int - 4 - operand as int - 8,
                    ) + le_bytes(rv));
                }
                Ok((sb as usize, depth - 1, false))
            },
            OpCode::CallBuiltIn => {
                match crate::builtins::call_builtin_fn(operand as usize, self) {
                    Ok(_) => (),
                    Err(e) => {
                        return Err(e);
                    },
                }
                self.isp = self.isp + 1;
                Ok((base, depth, false))
            },
            _ => Err(ExecError::UnrecognizedOpcode),
        }
    }

    /// Runs the named function to completion: zero-fills the missing slots
    /// of the static section, seeds the initial frame, and iterates the
    /// fetch-decode-execute step until the outermost return, a fault, or
    /// the step budget runs out. The outermost return discards the frame's
    /// locals and the return value, so a clean run leaves only what was on
    /// the stack when the frame was seeded. Returns exactly what iterating
    /// `spec_step` yields.
    #[verifier::rlimit(100)]
    pub fn run_fn(&mut self, id: &str) -> (r: Result<(), ExecError>)
        requires
            (spec_lookup_func(old(self).program@.data.functions, id@) matches Some(fm)
                && fm.address is Some),
            old(self).stack@.len() < 0xFFFF_FFFF,
            old(self).program@.data.static_section_size <= 0xFFFF,
        ensures
            final(self).program == old(self).program,
            ({
                let fm = spec_lookup_func(old(self).program@.data.functions, id@)->Some_0;
                let st0 = spec_extend_zeros(
                    old(self).stack@,
                    old(self).program@.data.static_section_size,
                );
                let s0 = VMState {
                    stack: st0,
                    isp: fm.address->Some_0,
                    base: st0.len() as int,
                    depth: 0,
                };
                match spec_run(old(self).program@.code, s0, run_limit()) {
                    RunResult::Finished(st) => r is Ok && final(self).stack@ == st,
                    RunResult::Faulted(e) => r == Err::<(), ExecError>(e),
                    RunResult::Out => r == Err::<(), ExecError>(ExecError::StepLimitExceeded),
                }
            }),
    {
        let key = String::from_str(id);
        let addr = match crate::compiler::program_data::lookup_func_table(
            &self.program.data.functions,
            &key,
        ) {
            Some(fm) => match fm.address {
                Some(a) => a,
                None => {
                    proof {
                        assert(false);
                    }
                    0
                },
            },
            None => {
                proof {
                    assert(false);
                }
                0
            },
        };
        let statics = self.program.data.static_section_size;
        let ghost pre = self.stack@;
        while self.stack.len() < statics
            invariant
                statics <= 0xFFFF,
                pre.len() <= self.stack@.len(),
                self.stack@ == spec_extend_zeros(pre, self.stack@.len() as int),
                self.stack@.len() <= vstd::math::max(pre.len() as int, statics as int),
                self.program == old(self).program,
            decreases statics - self.stack@.len(),
        {
            self.stack.push(0u8);
            proof {
                assert(self.stack@ =~= spec_extend_zeros(pre, self.stack@.len() as int));
            }
        }
        proof {
            assert(self.stack@ =~= spec_extend_zeros(pre, statics as int));
        }

        self.isp = addr;
        let mut base: usize = self.stack.len();
        let mut depth: u64 = 0;
        let mut fuel: u64 = 0x1_0000_0000;
        let ghost code = self.program@.code;
        let ghost s0 = VMState {
            stack: self.stack@,
            isp: addr as int,
            base: base as int,
            depth: 0,
        };

        loop
            invariant
                self.program == old(self).program,
                code == self.program@.code,
                fuel <= 0x1_0000_0000,
                depth as int <= 0x1_0000_0000 - fuel as int,
                s0 == (VMState {
                    stack: spec_extend_zeros(
                        old(self).stack@,
                        old(self).program@.data.static_section_size,
                    ),
                    isp: spec_lookup_func(
                        old(self).program@.data.functions,
                        id@,
                    )->Some_0.address->Some_0,
                    base: s0.base,
                    depth: 0,
                }),
                s0.base == s0.stack.len() as int,
                spec_run(code, s0, run_limit()) == spec_run(
                    code,
                    VMState {
                        stack: self.stack@,
                        isp: self.isp as int,
                        base: base as int,
                        depth: depth as int,
                    },
                    fuel as nat,
                ),
            decreases fuel,
        {
            let ghost s_cur = VMState {
                stack: self.stack@,
                isp: self.isp as int,
                base: base as int,
                depth: depth as int,
            };
            if fuel == 0 {
                return Err(ExecError::StepLimitExceeded);
            }
            proof {
                lemma_run_unfold(code, s_cur, fuel as nat);
            }
            fuel = fuel - 1;
            match self.step_once(base, depth) {
                Err(e) => {
                    return Err(e);
                },
                Ok((nb, nd, done)) => {
                    if done {
                        return Ok(());
                    }
                    base = nb;
                    depth = nd;
                },
            }
        }
    }

}

/// A return at positive call depth leaves no stray bytes on the stack: the
/// frame's locals and its two-word link are discarded, and only the
/// four-byte return value remains above the caller's data.
pub proof fn lemma_ret_clears_frame(code: Seq<u32>, s: VMState)
    requires
        0 <= s.isp < code.len(),
        spec_opcode_of((code[s.isp] & 0xFFFF) as u16) == Some(OpCode::Ret),
        s.depth > 0,
        spec_step(code, s) is Next,
    ensures
        ({
            let operand = ((code[s.isp] >> 16) as u16) as int;
            let s2 = spec_step(code, s)->Next_0;
            s2.stack.len() == s.stack.len() - operand - 8 && s2.depth == s.depth - 1
        }),
{
}

/// Iterating the step relation exactly `n` times reaches the second state
/// from the first without finishing or faulting along the way.
pub open spec fn spec_steps_to(code: Seq<u32>, s: VMState, s2: VMState, n: nat) -> bool
    decreases n,
{
    if n == 0 {
        s == s2
    } else {
        spec_step(code, s) matches StepResult::Next(s1) && spec_steps_to(
            code,
            s1,
            s2,
            (n - 1) as nat,
        )
    }
}

/// Two step runs compose.
pub proof fn lemma_steps_to_trans(
    code: Seq<u32>,
    s: VMState,
    s2: VMState,
    s3: VMState,
    n1: nat,
    n2: nat,
)
    requires
        spec_steps_to(code, s, s2, n1),
        spec_steps_to(code, s2, s3, n2),
    ensures
        spec_steps_to(code, s, s3, (n1 + n2) as nat),
    decreases n1,
{
    if n1 > 0 {
        let s1 = spec_step(code, s)->Next_0;
        lemma_steps_to_trans(code, s1, s2, s3, (n1 - 1) as nat, n2);
    }
}

/// The word appended to a stack reads back as itself, whether or not more
/// bytes follow it.
pub proof fn lemma_word_at_appended(st: Seq<u8>, v: u32, tail: Seq<u8>)
    ensures
        word_at(st + le_bytes(v) + tail, st.len() as int) == v,
        word_at(st + le_bytes(v), st.len() as int) == v,
{
    lemma_word_round_trip(v);
    assert((st + le_bytes(v) + tail)[st.len() as int] == le_bytes(v)[0]);
    assert((st + le_bytes(v) + tail)[st.len() as int + 1] == le_bytes(v)[1]);
    assert((st + le_bytes(v) + tail)[st.len() as int + 2] == le_bytes(v)[2]);
    assert((st + le_bytes(v) + tail)[st.len() as int + 3] == le_bytes(v)[3]);
    assert((st + le_bytes(v))[st.len() as int] == le_bytes(v)[0]);
    assert((st + le_bytes(v))[st.len() as int + 1] == le_bytes(v)[1]);
    assert((st + le_bytes(v))[st.len() as int + 2] == le_bytes(v)[2]);
    assert((st + le_bytes(v))[st.len() as int + 3] == le_bytes(v)[3]);
}

/// An expression built of decimal literals, unary minus and the binary
/// operators alone: it reads no symbol and calls nothing.
pub open spec fn is_const_expr(e: ExprV) -> bool
    decreases e,
{
    match e {
        ExprV::Literal(l) => l is DecimalLiteral,
        ExprV::UnaryOp(op, e1) => op == UnaryOperator::Sub && is_const_expr(*e1),
        ExprV::BinaryOp(_, a, b) => is_const_expr(*a) && is_const_expr(*b),
        _ => false,
    }
}

/// The single-precision bit pattern a constant expression evaluates to:
/// unary minus is a multiplication by minus one, exactly as the generated
/// code computes it.
pub open spec fn spec_const_value(e: ExprV) -> u32
    decreases e,
{
    match e {
        ExprV::Literal(l) => l->DecimalLiteral_0,
        ExprV::UnaryOp(_, e1) => mul_bits_of(spec_const_value(*e1), neg_one_bits()),
        ExprV::BinaryOp(op, a, b) => {
            let va = spec_const_value(*a);
            let vb = spec_const_value(*b);
            match op {
                BinaryOperator::Add => add_bits_of(va, vb),
                BinaryOperator::Sub => sub_bits_of(va, vb),
                BinaryOperator::Mul => mul_bits_of(va, vb),
                BinaryOperator::Div => div_bits_of(va, vb),
            }
        },
        _ => 0,
    }
}

/// What one `ConstF32` instruction does: it pushes its data cell.
proof fn lemma_const_step(code: Seq<u32>, s: VMState, d: u32)
    requires
        0 <= s.isp,
        s.isp + 1 < code.len(),
        code[s.isp] == spec_cell_of(OpCode::ConstF32, 0),
        code[s.isp + 1] == d,
    ensures
        spec_step(code, s) == StepResult::Next(
            VMState { stack: s.stack + le_bytes(d), isp: s.isp + 2, ..s },
        ),
{
    lemma_cell_round_trip(OpCode::ConstF32, 0);
    lemma_opcode_round_trip(OpCode::ConstF32);
}

/// What one scalar arithmetic instruction does on a stack ending in its two
/// operands: it pops them and pushes the combined bit pattern.
proof fn lemma_arith_step(code: Seq<u32>, s: VMState, st0: Seq<u8>, va: u32, vb: u32, opc: OpCode)
    requires
        0 <= s.isp < code.len(),
        code[s.isp] == spec_cell_of(opc, 0),
        s.stack == st0 + le_bytes(va) + le_bytes(vb),
        opc == OpCode::AddF32 || opc == OpCode::SubF32 || opc == OpCode::MulF32 || opc
            == OpCode::DivF32,
    ensures
        opc == OpCode::AddF32 ==> spec_step(code, s) == StepResult::Next(
            VMState { stack: st0 + le_bytes(add_bits_of(va, vb)), isp: s.isp + 1, ..s },
        ),
        opc == OpCode::SubF32 ==> spec_step(code, s) == StepResult::Next(
            VMState { stack: st0 + le_bytes(sub_bits_of(va, vb)), isp: s.isp + 1, ..s },
        ),
        opc == OpCode::MulF32 ==> spec_step(code, s) == StepResult::Next(
            VMState { stack: st0 + le_bytes(mul_bits_of(va, vb)), isp: s.isp + 1, ..s },
        ),
        opc == OpCode::DivF32 ==> spec_step(code, s) == StepResult::Next(
            VMState { stack: st0 + le_bytes(div_bits_of(va, vb)), isp: s.isp + 1, ..s },
        ),
{
    lemma_cell_round_trip(opc, 0);
    lemma_opcode_round_trip(opc);
    lemma_word_at_appended(st0, va, le_bytes(vb));
    lemma_word_at_appended(st0 + le_bytes(va), vb, Seq::empty());
    assert(s.stack =~= (st0 + le_bytes(va)) + le_bytes(vb));
    assert(word_at(s.stack, s.stack.len() - 8) == va);
    assert(word_at(s.stack, s.stack.len() - 4) == vb);
    assert(s.stack.take(s.stack.len() - 8) =~= st0);
}

/// Appends the negate-by-multiplication tail to a finished sub-run: a
/// `ConstF32` push of minus one and a `MulF32` add two steps and replace
/// the four bytes on top with the negated value.
#[verifier::spinoff_prover]
proof fn lemma_unary_tail_runs(code: Seq<u32>, j: int, s: VMState, v1: u32, n1: nat)
    requires
        0 <= j,
        j + 3 <= code.len(),
        code[j] == spec_cell_of(OpCode::ConstF32, 0),
        code[j + 1] == neg_one_bits(),
        code[j + 2] == spec_cell_of(OpCode::MulF32, 0),
        spec_steps_to(
            code,
            s,
            VMState { stack: s.stack + le_bytes(v1), isp: j, base: s.base, depth: s.depth },
            n1,
        ),
    ensures
        spec_steps_to(
            code,
            s,
            VMState {
                stack: s.stack + le_bytes(mul_bits_of(v1, neg_one_bits())),
                isp: j + 3,
                base: s.base,
                depth: s.depth,
            },
            (n1 + 2) as nat,
        ),
{
    let s_a = VMState { stack: s.stack + le_bytes(v1), isp: j, base: s.base, depth: s.depth };
    let s_b = VMState {
        stack: s.stack + le_bytes(v1) + le_bytes(neg_one_bits()),
        isp: j + 2,
        base: s.base,
        depth: s.depth,
    };
    let target = VMState {
        stack: s.stack + le_bytes(mul_bits_of(v1, neg_one_bits())),
        isp: j + 3,
        base: s.base,
        depth: s.depth,
    };
    lemma_const_step(code, s_a, neg_one_bits());
    assert(s_a.stack + le_bytes(neg_one_bits()) =~= s_b.stack);
    assert(spec_step(code, s_a) == StepResult::Next(s_b));
    lemma_arith_step(code, s_b, s.stack, v1, neg_one_bits(), OpCode::MulF32);
    assert(spec_step(code, s_b) == StepResult::Next(target));
    assert(spec_steps_to(code, target, target, 0nat));
    assert(spec_steps_to(code, s_b, target, 1nat));
    assert(spec_steps_to(code, s_b, s_b, 0nat));
    assert(spec_steps_to(code, s_a, s_b, 1nat));
    lemma_steps_to_trans(code, s_a, s_b, target, 1nat, 1nat);
    lemma_steps_to_trans(code, s, s_a, target, n1, 2nat);
}

/// Appends one scalar arithmetic instruction to a finished sub-run: the two
/// operand words on top are replaced by the combined bit pattern.
#[verifier::spinoff_prover]
proof fn lemma_binop_tail_runs(
    code: Seq<u32>,
    j: int,
    s: VMState,
    va: u32,
    vb: u32,
    opc: OpCode,
    n1: nat,
    r: u32,
)
    requires
        0 <= j < code.len(),
        code[j] == spec_cell_of(opc, 0),
        (opc == OpCode::AddF32 && r == add_bits_of(va, vb)) || (opc == OpCode::SubF32 && r
            == sub_bits_of(va, vb)) || (opc == OpCode::MulF32 && r == mul_bits_of(va, vb)) || (opc
            == OpCode::DivF32 && r == div_bits_of(va, vb)),
        spec_steps_to(
            code,
            s,
            VMState {
                stack: s.stack + le_bytes(va) + le_bytes(vb),
                isp: j,
                base: s.base,
                depth: s.depth,
            },
            n1,
        ),
    ensures
        spec_steps_to(
            code,
            s,
            VMState { stack: s.stack + le_bytes(r), isp: j + 1, base: s.base, depth: s.depth },
            (n1 + 1) as nat,
        ),
{
    let s_b = VMState {
        stack: s.stack + le_bytes(va) + le_bytes(vb),
        isp: j,
        base: s.base,
        depth: s.depth,
    };
    let target = VMState {
        stack: s.stack + le_bytes(r),
        isp: j + 1,
        base: s.base,
        depth: s.depth,
    };
    lemma_arith_step(code, s_b, s.stack, va, vb, opc);
    assert(spec_step(code, s_b) == StepResult::Next(target));
    assert(spec_steps_to(code, target, target, 0nat));
    assert(spec_steps_to(code, s_b, target, 1nat));
    lemma_steps_to_trans(code, s, s_b, target, n1, 1nat);
}

/// A constant expression types as a scalar whenever it types at all, so
/// instruction selection never picks the vector-scaling opcode for it.
proof fn lemma_const_expr_type(
    e: ExprV,
    locals: Seq<(Seq<char>, SymbolMetaV)>,
    globals: Seq<(Seq<char>, SymbolMetaV)>,
    funcs: Seq<(Seq<char>, FuncMetaV)>,
)
    requires
        is_const_expr(e),
        spec_type_of(e, locals, globals, funcs) is Ok,
    ensures
        spec_type_of(e, locals, globals, funcs)->Ok_0 == crate::ast::TypeKindV::F32,
    decreases e,
{
    if let ExprV::BinaryOp(op, a, b) = e {
        lemma_const_expr_type(*a, locals, globals, funcs);
        lemma_const_expr_type(*b, locals, globals, funcs);
    }
}

/// Running the code a constant expression compiles to pushes exactly the
/// four bytes of its value: the instruction pointer ends just past the
/// appended code, the frame's base and call depth are untouched, and every
/// byte of the prior stack is unchanged. Stated for expressions of literals
/// and operators alone; what a symbol read or a call pushes depends on the
/// run-time stack, which the test suite exercises instead.
#[verifier::rlimit(100)]
#[verifier::spinoff_prover]
pub proof fn lemma_const_expr_code_runs(
    e: ExprV,
    locals: Seq<(Seq<char>, SymbolMetaV)>,
    globals: Seq<(Seq<char>, SymbolMetaV)>,
    funcs: Seq<(Seq<char>, FuncMetaV)>,
    pre: Seq<u32>,
    post: Seq<u32>,
    s: VMState,
)
    requires
        is_const_expr(e),
        spec_gen_expr(e, locals, globals, funcs, pre) is Ok,
        spec_type_of(e, locals, globals, funcs) is Ok,
        s.isp == pre.len(),
    ensures
        exists|n: nat|
            spec_steps_to(
                spec_gen_expr(e, locals, globals, funcs, pre)->Ok_0 + post,
                s,
                VMState {
                    stack: s.stack + le_bytes(spec_const_value(e)),
                    isp: spec_gen_expr(e, locals, globals, funcs, pre)->Ok_0.len() as int,
                    base: s.base,
                    depth: s.depth,
                },
                n,
            ),
    decreases e,
{
    let gen = spec_gen_expr(e, locals, globals, funcs, pre)->Ok_0;
    let code = gen + post;
    let target = VMState {
        stack: s.stack + le_bytes(spec_const_value(e)),
        isp: gen.len() as int,
        base: s.base,
        depth: s.depth,
    };
    lemma_gen_expr_prefix(e, locals, globals, funcs, pre);
    match e {
        ExprV::Literal(l) => {
            let b = l->DecimalLiteral_0;
            assert(gen == pre + seq![spec_cell_of(OpCode::ConstF32, 0), b]);
            assert(code[s.isp] == spec_cell_of(OpCode::ConstF32, 0));
            assert(code[s.isp + 1] == b);
            lemma_const_step(code, s, b);
            assert(spec_step(code, s) == StepResult::Next(target));
            assert(spec_steps_to(code, target, target, 0nat));
            assert(spec_steps_to(code, s, target, 1nat));
        },
        ExprV::UnaryOp(op, e1) => {
            let c1 = spec_gen_expr(*e1, locals, globals, funcs, pre)->Ok_0;
            let tail = seq![
                spec_cell_of(OpCode::ConstF32, 0),
                neg_one_bits(),
                spec_cell_of(OpCode::MulF32, 0),
            ];
            assert(gen == c1 + tail);
            assert(code =~= c1 + (tail + post));
            lemma_const_expr_code_runs(*e1, locals, globals, funcs, pre, tail + post, s);
            let v1 = spec_const_value(*e1);
            let s_a = VMState {
                stack: s.stack + le_bytes(v1),
                isp: c1.len() as int,
                base: s.base,
                depth: s.depth,
            };
            let n1 = choose|n: nat| spec_steps_to(code, s, s_a, n);
            assert(spec_steps_to(code, s, s_a, n1));
            assert(code[c1.len() as int] == spec_cell_of(OpCode::ConstF32, 0));
            assert(code[c1.len() as int + 1] == neg_one_bits());
            assert(code[c1.len() as int + 2] == spec_cell_of(OpCode::MulF32, 0));
            lemma_unary_tail_runs(code, c1.len() as int, s, v1, n1);
        },
        ExprV::BinaryOp(op, a, b) => {
            let ta = spec_type_of(*a, locals, globals, funcs)->Ok_0;
            let tb = spec_type_of(*b, locals, globals, funcs)->Ok_0;
            lemma_const_expr_type(*a, locals, globals, funcs);
            lemma_const_expr_type(*b, locals, globals, funcs);
            let c1 = spec_gen_expr(*a, locals, globals, funcs, pre)->Ok_0;
            let c2 = spec_gen_expr(*b, locals, globals, funcs, c1)->Ok_0;
            let opc = crate::compiler::spec_binop_opcode(op, ta, tb);
            assert(opc != OpCode::MulF32_Vec3);
            assert(gen == c2 + seq![spec_cell_of(opc, 0)]);
            lemma_gen_expr_prefix(*b, locals, globals, funcs, c1);
            assert(c2 =~= c1 + c2.skip(c1.len() as int));
            let post_a = c2.skip(c1.len() as int) + (seq![spec_cell_of(opc, 0)] + post);
            assert(code =~= c1 + post_a);
            lemma_const_expr_code_runs(*a, locals, globals, funcs, pre, post_a, s);
            let va = spec_const_value(*a);
            let vb = spec_const_value(*b);
            let s_a = VMState {
                stack: s.stack + le_bytes(va),
                isp: c1.len() as int,
                base: s.base,
                depth: s.depth,
            };
            let n1 = choose|n: nat| spec_steps_to(code, s, s_a, n);
            assert(spec_steps_to(code, s, s_a, n1));
            assert(code =~= c2 + (seq![spec_cell_of(opc, 0)] + post));
            lemma_const_expr_code_runs(
                *b,
                locals,
                globals,
                funcs,
                c1,
                seq![spec_cell_of(opc, 0)] + post,
                s_a,
            );
            let s_b = VMState {
                stack: s.stack + le_bytes(va) + le_bytes(vb),
                isp: c2.len() as int,
                base: s.base,
                depth: s.depth,
            };
            assert(s_b.stack =~= s_a.stack + le_bytes(vb));
            let n2 = choose|n: nat| spec_steps_to(code, s_a, s_b, n);
            assert(spec_steps_to(code, s_a, s_b, n2));
            lemma_steps_to_trans(code, s, s_a, s_b, n1, n2);
            assert(code[c2.len() as int] == spec_cell_of(opc, 0));
            lemma_binop_tail_runs(
                code,
                c2.len() as int,
                s,
                va,
                vb,
                opc,
                (n1 + n2) as nat,
                spec_const_value(e),
            );
        },
        _ => {
        },
    }
}

/// The outermost return leaves no stray bytes either: the locals named by
/// the `Ret` operand and the four-byte return value are discarded, so a run
/// whose outermost frame began at the end of the static section finishes
/// with exactly the static section on the stack.
pub proof fn lemma_outermost_ret_discards(code: Seq<u32>, s: VMState)
    requires
        0 <= s.isp < code.len(),
        spec_opcode_of((code[s.isp] & 0xFFFF) as u16) == Some(OpCode::Ret),
        s.depth == 0,
        spec_step(code, s) is Done,
    ensures
        ({
            let operand = ((code[s.isp] >> 16) as u16) as int;
            let st = spec_step(code, s)->Done_0;
            st == s.stack.take(s.stack.len() - operand - 4) && st.len() == s.stack.len() - operand
                - 4
        }),
{
}

} // verus!
