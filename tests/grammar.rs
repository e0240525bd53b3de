use tinyexpr::{compile, is_foldable, parse, Expr, ExprType, Op, TinyExprError, Variable};

fn binding(name: &str, v_type: ExprType, address: i8, function: Option<Op>) -> Variable {
    let mut v = Variable::new(name, v_type);
    v.address = address;
    v.function = function;
    v
}

fn op_of(e: &Expr) -> Option<Op> {
    e.function
}

#[test]
fn precedence_builds_product_under_sum() {
    let e = parse("2+2*2").unwrap();
    assert_eq!(e.e_type, ExprType::Function(2));
    assert!(e.pure);
    assert_eq!(op_of(&e), Some(Op::Add));
    assert_eq!(e.parameters.len(), 2);
    assert_eq!(e.parameters[0].e_type, ExprType::Constant);
    assert_eq!(e.parameters[0].value, b"2".to_vec());
    assert_eq!(op_of(&e.parameters[1]), Some(Op::Mul));
}

#[test]
fn parentheses_override_precedence() {
    let e = parse("(2+2)*2").unwrap();
    assert_eq!(op_of(&e), Some(Op::Mul));
    assert_eq!(op_of(&e.parameters[0]), Some(Op::Add));
    assert_eq!(e.parameters[1].value, b"2".to_vec());
}

#[test]
fn same_level_operators_associate_left() {
    let e = parse("(2+2)*2/2").unwrap();
    assert_eq!(op_of(&e), Some(Op::Div));
    assert_eq!(op_of(&e.parameters[0]), Some(Op::Mul));
    assert_eq!(op_of(&e.parameters[0].parameters[0]), Some(Op::Add));
    let d = parse("8-4-2").unwrap();
    assert_eq!(op_of(&d), Some(Op::Sub));
    assert_eq!(op_of(&d.parameters[0]), Some(Op::Sub));
    assert_eq!(d.parameters[1].value, b"2".to_vec());
}

#[test]
fn comma_keeps_both_sides() {
    let e = parse("5,2").unwrap();
    assert_eq!(op_of(&e), Some(Op::Comma));
    assert_eq!(e.parameters[0].value, b"5".to_vec());
    assert_eq!(e.parameters[1].value, b"2".to_vec());
}

#[test]
fn minus_sign_wraps_base_in_negation() {
    let e = parse("-1").unwrap();
    assert_eq!(e.e_type, ExprType::Function(1));
    assert_eq!(op_of(&e), Some(Op::Neg));
    assert_eq!(e.parameters[0].value, b"1".to_vec());
    let p = parse("--1").unwrap();
    assert_eq!(p.e_type, ExprType::Constant);
}

#[test]
fn builtins_resolve_with_their_arity() {
    let e = parse("pow(2.0, 3.0)").unwrap();
    assert_eq!(e.e_type, ExprType::Function(2));
    assert_eq!(op_of(&e), Some(Op::Pow));
    assert_eq!(e.parameters[0].value, b"2.0".to_vec());
    assert_eq!(e.parameters[1].value, b"3.0".to_vec());
    let p = parse("pi").unwrap();
    assert_eq!(p.e_type, ExprType::Function(0));
    assert_eq!(op_of(&p), Some(Op::Pi));
    assert!(p.parameters.is_empty());
    let l = parse("log10(10)").unwrap();
    assert_eq!(op_of(&l), Some(Op::Log10));
    assert_eq!(op_of(&parse("atan2(1,2)").unwrap()), Some(Op::Atan2));
}

#[test]
fn whitespace_is_skipped() {
    let e = parse(" 2 \t+\r\n3 ").unwrap();
    assert_eq!(op_of(&e), Some(Op::Add));
    assert_eq!(e.parameters[1].value, b"3".to_vec());
}

#[test]
fn literal_forms_are_kept_as_written() {
    assert_eq!(parse("1.").unwrap().value, b"1.".to_vec());
    assert_eq!(parse(".5").unwrap().value, b".5".to_vec());
    assert_eq!(parse("007").unwrap().value, b"007".to_vec());
}

#[test]
fn malformed_literal_is_a_parse_error() {
    match parse("1..2") {
        Err(TinyExprError::Parse(lit)) => assert_eq!(lit, b"1..2".to_vec()),
        _ => panic!("expected a parse error"),
    }
    match compile("3+.", None) {
        Err(TinyExprError::Parse(lit)) => assert_eq!(lit, b".".to_vec()),
        _ => panic!("expected a parse error"),
    }
    match compile("1.2.3", None) {
        Err(e) => assert_eq!(e.description(), "invalid float literal"),
        _ => panic!("expected a parse error"),
    }
}

#[test]
fn unresolved_identifier_gives_no_expression() {
    assert!(matches!(compile("atan(foo)", None), Ok(None)));
    match parse("atan(foo)") {
        Err(TinyExprError::Other(m)) => assert_eq!(m, "NaN"),
        _ => panic!("expected an error"),
    }
}

#[test]
fn incomplete_input_gives_no_expression() {
    assert!(matches!(compile("2+", None), Ok(None)));
    assert!(matches!(compile("2 3", None), Ok(None)));
    assert!(matches!(compile("(2", None), Ok(None)));
    assert!(matches!(compile("2)", None), Ok(None)));
    assert!(matches!(compile("", None), Ok(None)));
    assert!(matches!(compile("2 $ 3", None), Ok(None)));
    assert!(matches!(compile("2A", None), Ok(None)));
}

#[test]
fn call_argument_count_must_match_arity() {
    assert!(matches!(compile("pow(2)", None), Ok(None)));
    assert!(matches!(compile("pow(1,2,3)", None), Ok(None)));
    assert!(matches!(compile("pow 1", None), Ok(None)));
    assert!(matches!(compile("pow(1,2", None), Ok(None)));
    assert!(compile("pow(1,2)", None).unwrap().is_some());
}

#[test]
fn variables_shadow_builtins() {
    let vars = vec![binding("pi", ExprType::Variable, 3, None)];
    let e = compile("pi", Some(vars)).unwrap().unwrap();
    assert_eq!(e.e_type, ExprType::Variable);
    assert_eq!(e.bound, 3);
}

#[test]
fn first_binding_of_a_name_wins() {
    let vars = vec![
        binding("x", ExprType::Variable, 1, None),
        binding("x", ExprType::Variable, 2, None),
    ];
    let e = compile("x", Some(vars)).unwrap().unwrap();
    assert_eq!(e.bound, 1);
}

#[test]
fn function_bindings_take_arguments() {
    let mut f = binding("twice", ExprType::Function(2), 0, Some(Op::Add));
    f.pure = true;
    let e = compile("twice(1, x1)", Some(vec![f, binding("x1", ExprType::Variable, 5, None)]))
        .unwrap()
        .unwrap();
    assert_eq!(e.e_type, ExprType::Function(2));
    assert_eq!(op_of(&e), Some(Op::Add));
    assert_eq!(e.parameters[1].e_type, ExprType::Variable);
    assert_eq!(e.parameters[1].bound, 5);
    let c = binding("g", ExprType::Closure(1), 0, Some(Op::Sqrt));
    let k = compile("g 4", Some(vec![c])).unwrap().unwrap();
    assert_eq!(k.e_type, ExprType::Closure(1));
    assert_eq!(k.parameters[0].value, b"4".to_vec());
}

#[test]
fn constant_tagged_binding_is_passed_over() {
    let vars = vec![binding("k", ExprType::Constant, 9, None)];
    let e = compile("k 7", Some(vars)).unwrap().unwrap();
    assert_eq!(e.e_type, ExprType::Constant);
    assert_eq!(e.value, b"7".to_vec());
}

#[test]
fn folding_decision_follows_purity_and_variables() {
    assert!(is_foldable(&parse("2+3").unwrap()));
    assert!(is_foldable(&parse("sin(pi/2)").unwrap()));
    let x = vec![binding("x", ExprType::Variable, 1, None)];
    assert!(!is_foldable(&compile("x+1", Some(x)).unwrap().unwrap()));
    let impure = vec![binding("f", ExprType::Function(1), 0, Some(Op::Abs))];
    assert!(!is_foldable(&compile("f 2", Some(impure)).unwrap().unwrap()));
}

#[test]
fn clone_copies_the_whole_tree() {
    let e = parse("atan2(1, -2)").unwrap();
    let c = e.clone();
    assert_eq!(c.e_type, e.e_type);
    assert_eq!(c.function, e.function);
    assert_eq!(c.parameters.len(), 2);
    assert_eq!(c.parameters[1].function, Some(Op::Neg));
    assert_eq!(c.parameters[1].parameters[0].value, b"2".to_vec());
}

#[test]
fn error_messages() {
    assert_eq!(TinyExprError::from(String::from("boom")).description(), "boom");
    assert_eq!(TinyExprError::Parse(b"1..".to_vec()).description(), "invalid float literal");
}

#[test]
fn variable_new_starts_empty() {
    let v = Variable::new("abc", ExprType::Function(1));
    assert_eq!(v.name, "abc");
    assert_eq!(v.v_type, ExprType::Function(1));
    assert_eq!(v.address, 0);
    assert!(v.function.is_none());
    assert!(!v.pure);
}
