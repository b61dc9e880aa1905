//! Resolution, code generation and execution, end to end: the typed error
//! taxonomy, the static layout, determinism, and complete runs through the
//! virtual machine.

use shadelang::ast::TypeKind;
use shadelang::builtins::get_builtin_fn;
use shadelang::compiler::resolve_types::{resolve, ResolveError};
use shadelang::compiler::{compile_source, MemoryCell, OpCode};
use shadelang::parser::parse;
use shadelang::vm::{ExecError, VirtualMachine};

fn run_with_input(src: &str, input: Option<(&str, f32)>, out: &str) -> f32 {
    let program = compile_source(src).expect("compile");
    let mut vm = VirtualMachine::new(program);
    if let Some((name, v)) = input {
        vm.set_in_float(name, v.to_bits());
    }
    vm.run_fn("main").expect("run");
    f32::from_bits(vm.get_out_float(out))
}

#[test]
fn undeclared_function_fails_with_unknown_function() {
    // Resolving a call to an undeclared name fails with UnknownFunction.
    let ast = parse("float x(){\nreturn bar(1.0)\n}").expect("parse");
    let err = resolve(&ast).unwrap_err();
    assert!(matches!(err, ResolveError::UnknownFunction(name) if name == "bar"));
}

#[test]
fn builtin_with_wrong_argument_types_is_a_type_mismatch() {
    // The vector constructor takes three scalars; integer literals do not fit.
    let ast = parse("float x(){\nreturn Vec3(1,2,3)\n}").expect("parse");
    let err = resolve(&ast).unwrap_err();
    assert!(matches!(err, ResolveError::TypeMismatch));
}

#[test]
fn unknown_symbol_is_reported() {
    let ast = parse("float x(){\nreturn c\n}").expect("parse");
    let err = resolve(&ast).unwrap_err();
    assert!(matches!(err, ResolveError::UnknownSymbol(name) if name == "c"));
}

#[test]
fn mismatched_operand_types_are_rejected() {
    let ast = parse("float x(){\nreturn Vec3(1.0,2.0,3.0) + 1.0\n}").expect("parse");
    let err = resolve(&ast).unwrap_err();
    assert!(matches!(err, ResolveError::TypeMismatch));
}

#[test]
fn static_offsets_follow_declaration_order_without_gaps() {
    // In-parameters then out-parameters; four bytes per scalar, twelve per
    // vector, contiguously.
    let src = "in float a\nin Vec3 v\nout float b\nout Vec3 w\nfloat main(){\nb = a\n}";
    let program = compile_source(src).expect("compile");
    let gs = &program.data.global_symbols;
    let offsets: Vec<(String, usize)> =
        gs.iter().map(|(n, m)| (n.clone(), m.stack_offset.unwrap())).collect();
    assert_eq!(offsets[0], ("a".to_string(), 0));
    assert_eq!(offsets[1], ("v".to_string(), 4));
    assert_eq!(offsets[2], ("b".to_string(), 16));
    assert_eq!(offsets[3], ("w".to_string(), 20));
    assert_eq!(program.data.static_section_size, 32);
    assert_eq!(program.data.min_stack_size, 32 + 1024);
}

#[test]
fn compiling_identical_source_twice_gives_identical_bytecode() {
    let src = "in float a\nout float b\nfloat main(){\nb = a * 2.0 + dot(Vec3(1.0,0.0,0.0), Vec3(1.0,2.0,3.0))\n}";
    let p1 = compile_source(src).expect("compile");
    let p2 = compile_source(src).expect("compile");
    assert_eq!(p1.code.len(), p2.code.len());
    for i in 0..p1.code.len() {
        assert_eq!(p1.code[i].data, p2.code[i].data);
    }
}

#[test]
fn doubling_an_input_end_to_end() {
    // in float a; out float b; main computes b = a * 2.0; a = 3.0 gives 6.0.
    let v = run_with_input(
        "in float a\nout float b\nfloat main(){\nb = a * 2.0\n}",
        Some(("a", 3.0)),
        "b",
    );
    assert_eq!(v, 6.0);
}

#[test]
fn dot_of_parallel_unit_vectors_is_one() {
    let v = run_with_input(
        "out float d\nfloat main(){\nd = dot(Vec3(1.0,0.0,0.0), Vec3(1.0,0.0,0.0))\n}",
        None,
        "d",
    );
    assert_eq!(v, 1.0);
}

#[test]
fn dot_of_orthogonal_unit_vectors_is_zero() {
    let v = run_with_input(
        "out float d\nfloat main(){\nd = dot(Vec3(1.0,0.0,0.0), Vec3(0.0,1.0,0.0))\n}",
        None,
        "d",
    );
    assert_eq!(v, 0.0);
}

#[test]
fn function_without_return_terminates_cleanly() {
    // The synthesized void return runs through the outermost Ret, which
    // discards the void word and the locals: the stack ends as exactly the
    // static section, with no stray bytes.
    let program =
        compile_source("out float b\nvoid main(){\nb = 1.0\n}").expect("compile");
    let statics = program.data.static_section_size;
    let mut vm = VirtualMachine::new(program);
    vm.run_fn("main").expect("run");
    assert_eq!(vm.stack.len(), statics);
    assert_eq!(f32::from_bits(vm.get_out_float("b")), 1.0);
}

#[test]
fn locals_leave_no_residue_after_a_run() {
    // A body with locals and an explicit return still ends with exactly the
    // static section on the stack, so a second run starts clean.
    let program = compile_source(
        "in float a\nout float b\nfloat main(){\nx = a + 1.0\nb = x\nreturn x\n}",
    )
    .expect("compile");
    let statics = program.data.static_section_size;
    let mut vm = VirtualMachine::new(program);
    vm.set_in_float("a", 2.0f32.to_bits());
    vm.run_fn("main").expect("run");
    assert_eq!(vm.stack.len(), statics);
    vm.run_fn("main").expect("run");
    assert_eq!(vm.stack.len(), statics);
    assert_eq!(f32::from_bits(vm.get_out_float("b")), 3.0);
}

#[test]
fn arithmetic_follows_precedence_at_run_time() {
    let v = run_with_input("out float b\nvoid main(){\nb = 2.0 + 3.0 * 4.0\n}", None, "b");
    assert_eq!(v, 14.0);
}

#[test]
fn subtraction_and_division_compute() {
    let v = run_with_input("out float b\nvoid main(){\nb = 3.5 - 1.25\n}", None, "b");
    assert_eq!(v, 2.25);
    let w = run_with_input("out float b\nvoid main(){\nb = 1.0 / 4.0\n}", None, "b");
    assert_eq!(w, 0.25);
}

#[test]
fn unary_minus_negates() {
    let v = run_with_input(
        "in float a\nout float b\nvoid main(){\nb = -a\n}",
        Some(("a", 3.0)),
        "b",
    );
    assert_eq!(v, -3.0);
}

#[test]
fn scalar_times_vector_scales_each_component() {
    let program = compile_source("out Vec3 w\nvoid main(){\nw = 2.0 * Vec3(1.0,2.0,3.0)\n}")
        .expect("compile");
    let mut vm = VirtualMachine::new(program);
    vm.run_fn("main").expect("run");
    // The first component of `w` sits at its own offset.
    assert_eq!(f32::from_bits(vm.get_out_float("w")), 2.0);
}

#[test]
fn normalize_scales_to_unit_length() {
    let program = compile_source("out Vec3 w\nvoid main(){\nw = normalize(Vec3(3.0,0.0,4.0))\n}")
        .expect("compile");
    let mut vm = VirtualMachine::new(program);
    vm.run_fn("main").expect("run");
    assert_eq!(f32::from_bits(vm.get_out_float("w")), 3.0f32 / 5.0f32);
}

#[test]
fn builtin_foo_doubles_a_scalar() {
    let v = run_with_input(
        "in float a\nout float b\nvoid main(){\nb = foo(a)\n}",
        Some(("a", 2.5)),
        "b",
    );
    assert_eq!(v, 5.0);
}

#[test]
fn user_function_call_through_the_calling_convention() {
    // The argument list is optional; user functions take no parameters.
    let v = run_with_input(
        "out float b\nfloat five(){\nreturn 5.0\n}\nfloat main(){\nb = five()\n}",
        None,
        "b",
    );
    assert_eq!(v, 5.0);
}

#[test]
fn a_call_may_still_pass_arguments() {
    // Arguments are evaluated and pushed; a user function ignores them, and
    // its Ret operand discards only its own locals, so the convention still
    // nets one return value.
    let v = run_with_input(
        "out float b\nfloat five(){\nreturn 5.0\n}\nfloat main(){\nb = five(0.0)\n}",
        None,
        "b",
    );
    assert_eq!(v, 5.0);
}

#[test]
fn local_variables_are_stored_and_reloaded() {
    let v = run_with_input(
        "in float a\nout float b\nvoid main(){\nx = a + 1.0\ny = x * 2.0\nb = y - x\n}",
        Some(("a", 4.0)),
        "b",
    );
    assert_eq!(v, 5.0);
}

#[test]
fn forward_call_reaches_a_function_declared_later() {
    // The sizing pass fixes every entry address before any call site is
    // emitted, so a call may name a function declared after the caller.
    let v = run_with_input(
        "out float b\nfloat main(){\nb = later()\n}\nfloat later(){\nreturn 1.0\n}",
        None,
        "b",
    );
    assert_eq!(v, 1.0);
}

#[test]
fn statements_after_a_return_compile_to_nothing() {
    // The body's walk stops emitting at its first return, so the compiled
    // function's final cell is its single Ret and the dead store never
    // runs.
    let program = compile_source(
        "out float b\nfloat main(){\nb = 1.0\nreturn b\nb = 2.0\n}",
    )
    .expect("compile");
    let last = program.code[program.code.len() - 1];
    assert!(matches!(last.get_inst(), Some((OpCode::Ret, _))));
    let mut vm = VirtualMachine::new(program);
    vm.run_fn("main").expect("run");
    assert_eq!(f32::from_bits(vm.get_out_float("b")), 1.0);
}

#[test]
fn one_compiled_program_drives_several_machines() {
    let program = compile_source("in float a\nout float b\nfloat main(){\nb = a * 2.0\n}")
        .expect("compile");
    let mut vm1 = VirtualMachine::new(program.duplicate());
    let mut vm2 = VirtualMachine::new(program);
    vm1.set_in_float("a", 3.0f32.to_bits());
    vm2.set_in_float("a", 10.0f32.to_bits());
    vm1.run_fn("main").expect("run");
    vm2.run_fn("main").expect("run");
    assert_eq!(f32::from_bits(vm1.get_out_float("b")), 6.0);
    assert_eq!(f32::from_bits(vm2.get_out_float("b")), 20.0);
}

#[test]
fn registry_lookup_honors_overloads() {
    let id = "foo".to_string();
    let scalar = vec![TypeKind::F32];
    let vector = vec![TypeKind::Vec3];
    assert_eq!(get_builtin_fn(&id, &scalar).map(|(i, _)| i), Some(3));
    assert_eq!(get_builtin_fn(&id, &vector).map(|(i, _)| i), Some(4));
    let missing = vec![TypeKind::Vec3, TypeKind::Vec3];
    assert!(get_builtin_fn(&id, &missing).is_none());
}

#[test]
fn unimplemented_opcode_faults_the_machine() {
    let src = "out float b\nvoid main(){\nb = 1.0\n}";
    let mut program = compile_source(src).expect("compile");
    program.code[0] = MemoryCell::plain_inst(OpCode::Jmp);
    let mut vm = VirtualMachine::new(program);
    let err = vm.run_fn("main").unwrap_err();
    assert!(matches!(err, ExecError::UnrecognizedOpcode));
}

#[test]
fn stack_underflow_faults_the_machine() {
    let src = "out float b\nvoid main(){\nb = 1.0\n}";
    let mut program = compile_source(src).expect("compile");
    program.code[0] = MemoryCell::plain_inst(OpCode::AddF32);
    let mut vm = VirtualMachine::new(program);
    let err = vm.run_fn("main").unwrap_err();
    assert!(matches!(err, ExecError::StackUnderflow));
}

#[test]
fn running_off_the_end_of_the_code_faults_the_machine() {
    let src = "out float b\nvoid main(){\nb = 1.0\n}";
    let mut program = compile_source(src).expect("compile");
    // Turn the final return into a no-op push so execution runs off the end.
    let last = program.code.len() - 1;
    program.code[last] = MemoryCell::plain_inst(OpCode::Void);
    let mut vm = VirtualMachine::new(program);
    let err = vm.run_fn("main").unwrap_err();
    assert!(matches!(err, ExecError::OutOfRangeOffset));
}
