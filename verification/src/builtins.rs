//! The registry of built-in functions: native vector operations invocable
//! from source like user functions, resolved at compile time to a stable
//! index baked into the bytecode.
//!
//! Lookup is by exact name and argument-type list, so overloads that differ
//! in argument types coexist. The run-time effect of each entry lives with
//! the virtual machine (`call_builtin_fn`).

use crate::ast::{Ident, TypeKind, TypeKindV};
use crate::numerics::{
    add_bits, add_bits_of, div_bits, div_bits_of, mul_bits, mul_bits_of, sqrt_bits, sqrt_bits_of,
};
use crate::vm::{le_bytes, pop_word, push_word, read_word, word_at, ExecError, VirtualMachine};
use vstd::prelude::*;
use vstd::string::StringExecFns;

verus! {

/// The signature of one built-in: name, argument types, return type.
pub struct BuiltInSig {
    pub name: Seq<char>,
    pub args: Seq<TypeKindV>,
    pub ret: TypeKindV,
}

/// The fixed table of built-ins, in registry order.
pub open spec fn spec_builtins() -> Seq<BuiltInSig> {
    seq![
        BuiltInSig {
            name: seq!['V', 'e', 'c', '3'],
            args: seq![TypeKindV::F32, TypeKindV::F32, TypeKindV::F32],
            ret: TypeKindV::Vec3,
        },
        BuiltInSig {
            name: seq!['n', 'o', 'r', 'm', 'a', 'l', 'i', 'z', 'e'],
            args: seq![TypeKindV::Vec3],
            ret: TypeKindV::Vec3,
        },
        BuiltInSig {
            name: seq!['d', 'o', 't'],
            args: seq![TypeKindV::Vec3, TypeKindV::Vec3],
            ret: TypeKindV::F32,
        },
        BuiltInSig { name: seq!['f', 'o', 'o'], args: seq![TypeKindV::F32], ret: TypeKindV::F32 },
        BuiltInSig {
            name: seq!['f', 'o', 'o'],
            args: seq![TypeKindV::Vec3],
            ret: TypeKindV::Vec3,
        },
    ]
}

/// The index and return type of the built-in with the given name and
/// argument types, if any.
pub open spec fn spec_get_builtin(name: Seq<char>, args: Seq<TypeKindV>) -> Option<
    (int, TypeKindV),
> {
    let bs = spec_builtins();
    if bs[0].name == name && bs[0].args == args {
        Some((0int, bs[0].ret))
    } else if bs[1].name == name && bs[1].args == args {
        Some((1int, bs[1].ret))
    } else if bs[2].name == name && bs[2].args == args {
        Some((2int, bs[2].ret))
    } else if bs[3].name == name && bs[3].args == args {
        Some((3int, bs[3].ret))
    } else if bs[4].name == name && bs[4].args == args {
        Some((4int, bs[4].ret))
    } else {
        None
    }
}

/// Whether any built-in bears the given name, whatever its argument types.
pub open spec fn spec_builtin_name_exists(name: Seq<char>) -> bool {
    exists|i: int| 0 <= i < spec_builtins().len() && spec_builtins()[i].name == name
}

/// Compares an argument-type list against two expected scalar/vector types.
fn args_match(args: &Vec<TypeKind>, expected: &Vec<TypeKind>) -> (r: bool)
    ensures
        r == (Seq::new(args@.len(), |i: int| args@[i]@) == Seq::new(
            expected@.len(),
            |i: int| expected@[i]@,
        )),
{
    let ghost av = Seq::new(args@.len(), |i: int| args@[i]@);
    let ghost ev = Seq::new(expected@.len(), |i: int| expected@[i]@);
    if args.len() != expected.len() {
        return false;
    }
    let n = args.len();
    for i in 0..n
        invariant
            n == args@.len() == expected@.len(),
            av == Seq::new(args@.len(), |i: int| args@[i]@),
            ev == Seq::new(expected@.len(), |i: int| expected@[i]@),
            forall|t: int| 0 <= t < i ==> av[t] == ev[t],
    {
        if !args[i].matches(&expected[i]) {
            proof {
                assert(av[i as int] != ev[i as int]);
            }
            return false;
        }
    }
    proof {
        assert(av =~= ev);
    }
    true
}

/// The argument types of the built-in at a registry index.
fn builtin_args(idx: usize) -> (r: Vec<TypeKind>)
    requires
        idx < 5,
    ensures
        Seq::new(r@.len(), |i: int| r@[i]@) == spec_builtins()[idx as int].args,
{
    let r: Vec<TypeKind> = if idx == 0 {
        vec![TypeKind::F32, TypeKind::F32, TypeKind::F32]
    } else if idx == 1 {
        vec![TypeKind::Vec3]
    } else if idx == 2 {
        vec![TypeKind::Vec3, TypeKind::Vec3]
    } else if idx == 3 {
        vec![TypeKind::F32]
    } else {
        vec![TypeKind::Vec3]
    };
    proof {
        assert(Seq::new(r@.len(), |i: int| r@[i]@) =~= spec_builtins()[idx as int].args);
    }
    r
}

/// The name of the built-in at a registry index.
fn builtin_name(idx: usize) -> (r: String)
    requires
        idx < 5,
    ensures
        r@ == spec_builtins()[idx as int].name,
{
    if idx == 0 {
        let s = String::from_str("Vec3");
        proof {
            reveal_strlit("Vec3");
            assert(s@ =~= spec_builtins()[0].name);
        }
        s
    } else if idx == 1 {
        let s = String::from_str("normalize");
        proof {
            reveal_strlit("normalize");
            assert(s@ =~= spec_builtins()[1].name);
        }
        s
    } else if idx == 2 {
        let s = String::from_str("dot");
        proof {
            reveal_strlit("dot");
            assert(s@ =~= spec_builtins()[2].name);
        }
        s
    } else if idx == 3 {
        let s = String::from_str("foo");
        proof {
            reveal_strlit("foo");
            assert(s@ =~= spec_builtins()[3].name);
        }
        s
    } else {
        let s = String::from_str("foo");
        proof {
            reveal_strlit("foo");
            assert(s@ =~= spec_builtins()[4].name);
        }
        s
    }
}

/// The return type of the built-in at a registry index.
fn builtin_ret(idx: usize) -> (r: TypeKind)
    requires
        idx < 5,
    ensures
        r@ == spec_builtins()[idx as int].ret,
{
    if idx == 0 {
        TypeKind::Vec3
    } else if idx == 1 {
        TypeKind::Vec3
    } else if idx == 2 {
        TypeKind::F32
    } else if idx == 3 {
        TypeKind::F32
    } else {
        TypeKind::Vec3
    }
}

/// Looks a call site up in the registry by exact name and argument-type
/// list; yields the built-in's index and return type.
pub fn get_builtin_fn(id: &Ident, arg_types: &Vec<TypeKind>) -> (r: Option<(usize, TypeKind)>)
    ensures
        match r {
            Some((idx, ret)) => spec_get_builtin(
                id@,
                Seq::new(arg_types@.len(), |i: int| arg_types@[i]@),
            ) == Some((idx as int, ret@)),
            None => spec_get_builtin(id@, Seq::new(arg_types@.len(), |i: int| arg_types@[i]@))
                is None,
        },
{
    let mut idx: usize = 0;
    while idx < 5
        invariant
            idx <= 5,
            forall|t: int|
                0 <= t < idx ==> !(spec_builtins()[t].name == id@ && spec_builtins()[t].args
                    == Seq::new(arg_types@.len(), |i: int| arg_types@[i]@)),
        decreases 5 - idx,
    {
        let name = builtin_name(idx);
        let expected = builtin_args(idx);
        if *id == name && args_match(arg_types, &expected) {
            return Some((idx, builtin_ret(idx)));
        }
        idx = idx + 1;
    }
    None
}

/// Whether any built-in bears this name.
pub fn builtin_name_exists(id: &Ident) -> (r: bool)
    ensures
        r == spec_builtin_name_exists(id@),
{
    let mut idx: usize = 0;
    while idx < 5
        invariant
            idx <= 5,
            forall|t: int| 0 <= t < idx ==> spec_builtins()[t].name != id@,
        decreases 5 - idx,
    {
        let name = builtin_name(idx);
        if *id == name {
            proof {
                assert(spec_builtins()[idx as int].name == id@);
            }
            return true;
        }
        idx = idx + 1;
    }
    proof {
        assert(forall|i: int| 0 <= i < spec_builtins().len() ==> spec_builtins()[i].name != id@);
    }
    false
}

/// The dot product of two vectors held as bit patterns, summed left to
/// right as the native operation does.
pub open spec fn spec_dot(
    ax: u32,
    ay: u32,
    az: u32,
    bx: u32,
    by: u32,
    bz: u32,
) -> u32 {
    add_bits_of(
        add_bits_of(mul_bits_of(ax, bx), mul_bits_of(ay, by)),
        mul_bits_of(az, bz),
    )
}

/// The effect of the built-in at a registry index on the byte stack: pop
/// the arguments in order, push the result. A short stack underflows; an
/// index outside the registry is an out-of-range fault.
pub open spec fn spec_call_builtin(idx: int, stack: Seq<u8>) -> Result<Seq<u8>, ExecError> {
    let len = stack.len() as int;
    if idx == 0 {
        // The vector constructor: its three scalars already lie in place.
        if len < 12 {
            Err(ExecError::StackUnderflow)
        } else {
            Ok(stack)
        }
    } else if idx == 1 {
        // normalize: divide each component by the vector's length.
        if len < 12 {
            Err(ExecError::StackUnderflow)
        } else {
            let x = word_at(stack, len - 12);
            let y = word_at(stack, len - 8);
            let z = word_at(stack, len - 4);
            let l = sqrt_bits_of(spec_dot(x, y, z, x, y, z));
            Ok(
                stack.take(len - 12) + le_bytes(div_bits_of(x, l)) + le_bytes(
                    div_bits_of(y, l),
                ) + le_bytes(div_bits_of(z, l)),
            )
        }
    } else if idx == 2 {
        // dot: two vectors in, one scalar out.
        if len < 24 {
            Err(ExecError::StackUnderflow)
        } else {
            let ax = word_at(stack, len - 24);
            let ay = word_at(stack, len - 20);
            let az = word_at(stack, len - 16);
            let bx = word_at(stack, len - 12);
            let by = word_at(stack, len - 8);
            let bz = word_at(stack, len - 4);
            Ok(stack.take(len - 24) + le_bytes(spec_dot(ax, ay, az, bx, by, bz)))
        }
    } else if idx == 3 {
        // foo on a scalar: doubles it.
        if len < 4 {
            Err(ExecError::StackUnderflow)
        } else {
            let a = word_at(stack, len - 4);
            Ok(stack.take(len - 4) + le_bytes(mul_bits_of(a, 0x4000_0000)))
        }
    } else if idx == 4 {
        // foo on a vector: the identity.
        if len < 12 {
            Err(ExecError::StackUnderflow)
        } else {
            Ok(stack)
        }
    } else {
        Err(ExecError::OutOfRangeOffset)
    }
}

/// Runs the built-in at a registry index against the machine's stack,
/// exactly as `spec_call_builtin` describes. On a fault the stack is left
/// as it was.
pub fn call_builtin_fn(func_id: usize, vm: &mut VirtualMachine) -> (r: Result<(), ExecError>)
    ensures
        final(vm).program == old(vm).program,
        final(vm).isp == old(vm).isp,
        match spec_call_builtin(func_id as int, old(vm).stack@) {
            Ok(st) => r is Ok && final(vm).stack@ == st,
            Err(e) => r == Err::<(), ExecError>(e) && final(vm).stack@ == old(vm).stack@,
        },
{
    let len = vm.stack.len();
    if func_id == 0 {
        if len < 12 {
            return Err(ExecError::StackUnderflow);
        }
        Ok(())
    } else if func_id == 1 {
        if len < 12 {
            return Err(ExecError::StackUnderflow);
        }
        let x = read_word(&vm.stack, len - 12);
        let y = read_word(&vm.stack, len - 8);
        let z = read_word(&vm.stack, len - 4);
        let l = sqrt_bits(add_bits(add_bits(mul_bits(x, x), mul_bits(y, y)), mul_bits(z, z)));
        vm.stack.truncate(len - 12);
        push_word(&mut vm.stack, div_bits(x, l));
        push_word(&mut vm.stack, div_bits(y, l));
        push_word(&mut vm.stack, div_bits(z, l));
        proof {
            assert(old(vm).stack@.take(len - 12) =~= vm.stack@.take(len - 12));
            assert(vm.stack@ =~= old(vm).stack@.take(len - 12) + le_bytes(
                div_bits_of(x, sqrt_bits_of(spec_dot(x, y, z, x, y, z))),
            ) + le_bytes(div_bits_of(y, sqrt_bits_of(spec_dot(x, y, z, x, y, z)))) + le_bytes(
                div_bits_of(z, sqrt_bits_of(spec_dot(x, y, z, x, y, z))),
            ));
        }
        Ok(())
    } else if func_id == 2 {
        if len < 24 {
            return Err(ExecError::StackUnderflow);
        }
        let ax = read_word(&vm.stack, len - 24);
        let ay = read_word(&vm.stack, len - 20);
        let az = read_word(&vm.stack, len - 16);
        let bx = read_word(&vm.stack, len - 12);
        let by = read_word(&vm.stack, len - 8);
        let bz = read_word(&vm.stack, len - 4);
        let d = add_bits(add_bits(mul_bits(ax, bx), mul_bits(ay, by)), mul_bits(az, bz));
        vm.stack.truncate(len - 24);
        push_word(&mut vm.stack, d);
        proof {
            assert(vm.stack@ =~= old(vm).stack@.take(len - 24) + le_bytes(
                spec_dot(ax, ay, az, bx, by, bz),
            ));
        }
        Ok(())
    } else if func_id == 3 {
        if len < 4 {
            return Err(ExecError::StackUnderflow);
        }
        let a = read_word(&vm.stack, len - 4);
        let doubled = mul_bits(a, 0x4000_0000);
        vm.stack.truncate(len - 4);
        push_word(&mut vm.stack, doubled);
        proof {
            assert(vm.stack@ =~= old(vm).stack@.take(len - 4) + le_bytes(
                mul_bits_of(a, 0x4000_0000),
            ));
        }
        Ok(())
    } else if func_id == 4 {
        if len < 12 {
            return Err(ExecError::StackUnderflow);
        }
        Ok(())
    } else {
        Err(ExecError::OutOfRangeOffset)
    }
}

} // verus!
