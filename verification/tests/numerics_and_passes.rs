//! The bit-level numeric kernel and the experimental passes: the integer
//! square root against the hardware result, the arithmetic wrappers through
//! the pipeline, and the inlining pass.

use shadelang::ast::{Expr, Statement};
use shadelang::numerics::{add_bits, decimal_bits, div_bits, mul_bits, sqrt_bits, sub_bits};
use shadelang::parser::parse;
use shadelang::vm::compiler::inline_pass;

#[test]
fn square_root_matches_the_hardware_result() {
    let samples: [f32; 12] = [
        0.0, 1.0, 2.0, 4.0, 0.25, 9.0, 25.0, 0.5, 12345.678, 1.0e-30, 3.0e38, 1.5e-42,
    ];
    for v in samples {
        assert_eq!(
            sqrt_bits(v.to_bits()),
            v.sqrt().to_bits(),
            "square root of {} disagrees",
            v
        );
    }
}

#[test]
fn square_root_of_negative_input_is_the_quiet_nan() {
    assert_eq!(sqrt_bits((-1.0f32).to_bits()), 0x7FC0_0000);
    // Negative zero passes through, as the native operation keeps it.
    assert_eq!(sqrt_bits((-0.0f32).to_bits()), (-0.0f32).to_bits());
    assert_eq!(sqrt_bits(f32::INFINITY.to_bits()), f32::INFINITY.to_bits());
}

#[test]
fn arithmetic_wrappers_match_the_hardware() {
    let a = 1.5f32;
    let b = 2.25f32;
    assert_eq!(add_bits(a.to_bits(), b.to_bits()), (a + b).to_bits());
    assert_eq!(sub_bits(a.to_bits(), b.to_bits()), (a - b).to_bits());
    assert_eq!(mul_bits(a.to_bits(), b.to_bits()), (a * b).to_bits());
    assert_eq!(div_bits(a.to_bits(), b.to_bits()), (a / b).to_bits());
}

#[test]
fn decimal_literals_parse_to_the_nearest_single() {
    let text: Vec<char> = "2.5".chars().collect();
    assert_eq!(decimal_bits(&text), Some(2.5f32.to_bits()));
    let pi: Vec<char> = "3.14159".chars().collect();
    assert_eq!(decimal_bits(&pi), Some(3.14159f32.to_bits()));
    let bad: Vec<char> = "2.5.1".chars().collect();
    assert_eq!(decimal_bits(&bad), None);
}

#[test]
fn inlining_splices_the_callee_body_through_a_temporary() {
    let ast = parse(
        "out float b\nfloat five(){\nreturn 5.0\n}\nfloat main(){\nb = five(0.0)\n}",
    )
    .expect("parse");
    let inlined = inline_pass(&ast);
    // Only the entry function survives the pass.
    assert_eq!(inlined.functions.len(), 1);
    assert_eq!(inlined.functions[0].ident.item.as_str(), "main");
    let sts = &inlined.functions[0].statements;
    assert_eq!(sts.len(), 2);
    match &sts[0] {
        Statement::Assignment(name, _) => assert_eq!(name.item.as_str(), "tmp_1"),
        other => panic!("expected the spliced return, got {:?}", other),
    }
    match &sts[1] {
        Statement::Assignment(name, e) => {
            assert_eq!(name.item.as_str(), "b");
            assert!(matches!(e, Expr::Symbol(s) if s.ident.as_str() == "tmp_1"));
        }
        other => panic!("expected the rewritten assignment, got {:?}", other),
    }
    // Parameter declarations are kept.
    assert_eq!(inlined.out_parameters.len(), 1);
}

#[test]
fn folding_currently_leaves_the_tree_unchanged() {
    let mut ast = parse("out float b\nvoid main(){\nb = 1.0 + 2.0\n}").expect("parse");
    let before = ast.functions[0].statements.len();
    shadelang::compiler::constant_folding::fold(&mut ast);
    assert_eq!(ast.functions[0].statements.len(), before);
}
