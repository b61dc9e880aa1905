//! Scanner and parser behaviour: token shapes, precedence, associativity,
//! and the first-error-wins failure mode.

use shadelang::ast::{BinaryOperator, Expr, Literal, UnaryOperator};
use shadelang::parser::{parse, parse_expr_bp, SourceError, TokenSource};
use shadelang::scanner::{Scanner, ScanningError, Token};

fn expr_of(src: &str) -> Expr {
    let chars: Vec<char> = src.chars().collect();
    let tokens = Scanner::new(chars).scan_all().expect("scan");
    let mut cursor = TokenSource::new(tokens);
    parse_expr_bp(&mut cursor, 0).expect("parse")
}

fn sym_name(e: &Expr) -> &str {
    match e {
        Expr::Symbol(s) => s.ident.as_str(),
        _ => panic!("expected symbol"),
    }
}

#[test]
fn subtraction_associates_left() {
    // "a - b - c" parses as ((a - b) - c).
    let e = expr_of("a - b - c");
    match e {
        Expr::BinaryOp(BinaryOperator::Sub, lhs, rhs) => {
            assert_eq!(sym_name(&rhs), "c");
            match *lhs {
                Expr::BinaryOp(BinaryOperator::Sub, ll, lr) => {
                    assert_eq!(sym_name(&ll), "a");
                    assert_eq!(sym_name(&lr), "b");
                }
                other => panic!("expected (a - b) on the left, got {:?}", other),
            }
        }
        other => panic!("expected subtraction at the root, got {:?}", other),
    }
}

#[test]
fn multiplication_binds_tighter_than_addition() {
    // "a + b * c" parses as a + (b * c).
    let e = expr_of("a + b * c");
    match e {
        Expr::BinaryOp(BinaryOperator::Add, lhs, rhs) => {
            assert_eq!(sym_name(&lhs), "a");
            match *rhs {
                Expr::BinaryOp(BinaryOperator::Mul, rl, rr) => {
                    assert_eq!(sym_name(&rl), "b");
                    assert_eq!(sym_name(&rr), "c");
                }
                other => panic!("expected (b * c) on the right, got {:?}", other),
            }
        }
        other => panic!("expected addition at the root, got {:?}", other),
    }
}

#[test]
fn unary_minus_binds_tighter_than_multiplication() {
    // "-a * b" parses as (-a) * b.
    let e = expr_of("-a * b");
    match e {
        Expr::BinaryOp(BinaryOperator::Mul, lhs, rhs) => {
            assert_eq!(sym_name(&rhs), "b");
            match *lhs {
                Expr::UnaryOp(UnaryOperator::Sub, inner) => {
                    assert_eq!(sym_name(&inner), "a");
                }
                other => panic!("expected (-a) on the left, got {:?}", other),
            }
        }
        other => panic!("expected multiplication at the root, got {:?}", other),
    }
}

#[test]
fn parenthesized_grouping_overrides_precedence() {
    let e = expr_of("(a + b) * c");
    match e {
        Expr::BinaryOp(BinaryOperator::Mul, lhs, _) => match *lhs {
            Expr::BinaryOp(BinaryOperator::Add, _, _) => (),
            other => panic!("expected (a + b) on the left, got {:?}", other),
        },
        other => panic!("expected multiplication at the root, got {:?}", other),
    }
}

#[test]
fn scanner_produces_expected_tokens() {
    let chars: Vec<char> = "out float b\nb = 2.5\n".chars().collect();
    let tokens = Scanner::new(chars).scan_all().expect("scan");
    let kinds: Vec<Token> = tokens.into_iter().map(|t| t.item).collect();
    assert!(matches!(kinds[0], Token::Out));
    assert!(matches!(kinds[1], Token::Float));
    assert!(matches!(&kinds[2], Token::Identifier(s) if s == "b"));
    assert!(matches!(kinds[4], Token::Equals));
    assert!(matches!(kinds[5], Token::FloatLiteral(b) if b == 2.5f32.to_bits()));
}

#[test]
fn keywords_match_case_insensitively() {
    let chars: Vec<char> = "OUT Float b\n".chars().collect();
    let tokens = Scanner::new(chars).scan_all().expect("scan");
    assert!(matches!(tokens[0].item, Token::Out));
    assert!(matches!(tokens[1].item, Token::Float));
}

#[test]
fn integer_literals_scan_as_integers() {
    let chars: Vec<char> = "x = 5\n".chars().collect();
    let tokens = Scanner::new(chars).scan_all().expect("scan");
    assert!(matches!(tokens[2].item, Token::IntegerLiteral(5)));
}

#[test]
fn unexpected_character_is_a_scan_error() {
    let chars: Vec<char> = "float @\n".chars().collect();
    let err = Scanner::new(chars).scan_all().unwrap_err();
    assert!(matches!(err, ScanningError::UnexpectedCharacter(c) if c.item == '@'));
}

#[test]
fn a_digit_run_at_end_of_input_is_a_complete_literal() {
    let chars: Vec<char> = "123".chars().collect();
    let tokens = Scanner::new(chars).scan_all().expect("scan");
    assert_eq!(tokens.len(), 1);
    assert!(matches!(tokens[0].item, Token::IntegerLiteral(123)));
}

#[test]
fn an_identifier_at_end_of_input_is_a_complete_token() {
    let chars: Vec<char> = "a".chars().collect();
    let tokens = Scanner::new(chars).scan_all().expect("scan");
    assert_eq!(tokens.len(), 1);
    assert!(matches!(&tokens[0].item, Token::Identifier(s) if s == "a"));
}

#[test]
fn a_decimal_at_end_of_input_is_a_complete_literal() {
    let chars: Vec<char> = "2.5".chars().collect();
    let tokens = Scanner::new(chars).scan_all().expect("scan");
    assert_eq!(tokens.len(), 1);
    assert!(matches!(tokens[0].item, Token::FloatLiteral(b) if b == 2.5f32.to_bits()));
}

#[test]
fn oversized_integer_literal_is_invalid() {
    let chars: Vec<char> = "99999999999999999999\n".chars().collect();
    let err = Scanner::new(chars).scan_all().unwrap_err();
    assert!(matches!(err, ScanningError::InvalidLiteral(_)));
}

#[test]
fn a_call_with_no_arguments_parses() {
    // The grammar's argument list is optional.
    let e = expr_of("f()");
    match e {
        Expr::FuncCall(name, args) => {
            assert_eq!(name.item.as_str(), "f");
            assert!(args.is_empty());
        }
        other => panic!("expected a call, got {:?}", other),
    }
}

#[test]
fn an_unclosed_function_body_is_an_end_of_input_error() {
    // The grammar demands the closing brace.
    let r = parse("float main(){\nb = 1.0\n");
    assert!(matches!(r, Err(SourceError::Parsing(_))));
}

#[test]
fn token_spans_carry_offsets_and_lines() {
    let chars: Vec<char> = "out float b\nb = 2.5\n".chars().collect();
    let tokens = Scanner::new(chars).scan_all().expect("scan");
    // "out" starts the input on line 1.
    assert_eq!(tokens[0].from.offset, Some(0));
    assert_eq!(tokens[0].from.line, 1);
    assert_eq!(tokens[0].to.offset, Some(3));
    // "float" begins at offset 4.
    assert_eq!(tokens[1].from.offset, Some(4));
    // The second "b" begins line 2, just past the newline at offset 11.
    assert_eq!(tokens[3].from.offset, Some(12));
    assert_eq!(tokens[3].from.line, 2);
    // "2.5" covers offsets 16..19.
    assert_eq!(tokens[5].from.offset, Some(16));
    assert_eq!(tokens[5].to.offset, Some(19));
}

#[test]
fn the_offset_advances_on_every_read() {
    // A read at the end of the input fails but still counts.
    let chars: Vec<char> = "a".chars().collect();
    let mut scanner = Scanner::new(chars);
    assert_eq!(scanner.advance(), Some('a'));
    assert_eq!(scanner.offset, 1);
    assert_eq!(scanner.advance(), None);
    assert_eq!(scanner.offset, 2);
    assert_eq!(scanner.advance(), None);
    assert_eq!(scanner.offset, 3);
}

#[test]
fn unexpected_token_aborts_parsing() {
    let r = parse("float main)\n");
    assert!(matches!(r, Err(SourceError::Parsing(_))));
}

#[test]
fn truncated_declaration_is_an_end_of_input_error() {
    let r = parse("out float\n");
    assert!(matches!(r, Err(SourceError::Parsing(_))));
}

#[test]
fn a_whole_program_parses() {
    let p = parse("in float a\nout float b\nfloat main(){\nb = a * 2.0\n}").expect("parse");
    assert_eq!(p.in_parameters.len(), 1);
    assert_eq!(p.out_parameters.len(), 1);
    assert_eq!(p.functions.len(), 1);
    assert_eq!(p.functions[0].ident.item.as_str(), "main");
    assert_eq!(p.functions[0].statements.len(), 1);
}
