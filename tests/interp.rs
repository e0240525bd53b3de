use tinyexpr::{compile, is_foldable, parse, Expr, ExprType, Op, TinyExprError, Variable};

fn literal(n: &Expr) -> f64 {
    std::str::from_utf8(&n.value).unwrap().parse::<f64>().unwrap()
}

fn apply(op: Op, a: &[f64]) -> f64 {
    match op {
        Op::Add => a[0] + a[1],
        Op::Sub => a[0] - a[1],
        Op::Mul => a[0] * a[1],
        Op::Div => a[0] / a[1],
        Op::Fmod => a[0] % a[1],
        Op::Neg => -a[0],
        Op::Comma => a[1],
        Op::Abs => a[0].abs(),
        Op::Acos => a[0].acos(),
        Op::Asin => a[0].asin(),
        Op::Atan => a[0].atan(),
        Op::Atan2 => a[0].atan2(a[1]),
        Op::Ceil => a[0].ceil(),
        Op::Cos => a[0].cos(),
        Op::Cosh => a[0].cosh(),
        Op::E => std::f64::consts::E,
        Op::Exp => a[0].exp(),
        Op::Floor => a[0].floor(),
        Op::Ln => a[0].ln(),
        Op::Log => a[0].log10(),
        Op::Log10 => a[0].log10(),
        Op::Pi => std::f64::consts::PI,
        Op::Pow => a[0].powf(a[1]),
        Op::Sin => a[0].sin(),
        Op::Sinh => a[0].sinh(),
        Op::Sqrt => a[0].sqrt(),
        Op::Tan => a[0].tan(),
        Op::Tanh => a[0].tanh(),
    }
}

fn eval(n: &Expr) -> f64 {
    match n.e_type {
        ExprType::Constant => literal(n),
        ExprType::Variable => n.bound as f64,
        ExprType::Function(_) => {
            let args: Vec<f64> = n.parameters.iter().map(eval).collect();
            apply(n.function.unwrap(), &args)
        }
        ExprType::Closure(_) => 0.0,
    }
}

fn interp(expression: &str) -> Result<f64, TinyExprError> {
    let e = parse(expression)?;
    Ok(eval(&e))
}

#[test]
fn check_basics() {
    assert_eq!(interp("2*2").unwrap(), 4.0);
    assert_eq!(interp("2+2").unwrap(), 4.0);
    assert_eq!(interp("3-2").unwrap(), 1.0);
    assert_eq!(interp("5%2").unwrap(), 1.0);
    assert_eq!(interp("5^2").unwrap(), 25.0);
    assert_eq!(interp("2+2*2").unwrap(), 6.0);
    assert_eq!(interp("(2+2)*2").unwrap(), 8.0);
    assert_eq!(interp("(2+2)*2/2").unwrap(), 4.0);
    assert_eq!(interp("abs(-1)").unwrap(), 1.0);
    assert_eq!(interp("sqrt(728*728)").unwrap(), 728.0);
    assert_eq!(interp("pow(2.0, 3.0)").unwrap(), 8.0);
    assert_eq!(interp("exp(1)").unwrap(), interp("e").unwrap());
    assert_eq!(interp("floor(3.1415)").unwrap(), 3.0);
    assert_eq!(interp("ceil(3.1415)*floor(3.1415)").unwrap(), 12.0);
    assert_eq!(interp("5,2").unwrap(), 2.0);
}

#[test]
fn check_constants() {
    assert_eq!(interp("pi").unwrap(), 3.141592653589793);
    assert_eq!(interp("e").unwrap(), 2.718281828459045);
}

#[test]
fn check_logarithms() {
    assert_eq!(interp("ln(e)").unwrap(), 1.0);
    assert_eq!(interp("log(10)").unwrap(), 1.0);
    assert_eq!(interp("log10(10)").unwrap(), 1.0);
}

#[test]
fn check_trigs() {
    assert_eq!(interp("2*1/sin(3.14/2)").unwrap().round(), 2.0);
    assert_eq!(interp("asin(1)").unwrap(), interp("pi/2").unwrap());
    assert_eq!(interp("tan(pi)").unwrap().round(), 0.0);
    assert_eq!(interp("atan(pi/2)").unwrap().round(), 1.0);
    assert_eq!(interp("atan2(pi, 2)").unwrap().round(), 1.0);
    assert_eq!(interp("cos(0)").unwrap().round(), 1.0);
    assert_eq!(interp("acos(1)").unwrap(), 0.0);
}

#[test]
fn check_hyberbolic_trigs() {
    assert_eq!(interp("sinh(0)").unwrap(), 0.0);
    assert_eq!(interp("cosh(0)").unwrap(), 1.0);
    assert_eq!(interp("tanh(10000)").unwrap(), 1.0);
}

#[test]
#[should_panic]
fn parse_error() {
    let _ = interp("atan(foo)").unwrap_or_else(|e| {
        panic!("{}", e.description());
    });
}

#[test]
fn unary_function_takes_a_power_argument() {
    assert_eq!(interp("sqrt 16").unwrap(), 4.0);
    assert_eq!(interp("-sqrt 16").unwrap(), -4.0);
}

#[test]
fn sign_runs_negate_by_parity() {
    assert_eq!(interp("--2").unwrap(), 2.0);
    assert_eq!(interp("-+-2").unwrap(), 2.0);
    assert_eq!(interp("---2").unwrap(), -2.0);
}

#[test]
fn power_is_left_associative() {
    assert_eq!(interp("2^3^2").unwrap(), 64.0);
}

#[test]
fn division_by_zero_gives_infinity() {
    assert_eq!(interp("1/0").unwrap(), f64::INFINITY);
    assert!(interp("sqrt(-1)").unwrap().is_nan());
}

fn folded_eval(n: &Expr) -> f64 {
    if is_foldable(n) {
        let value = eval(n);
        return value;
    }
    match n.e_type {
        ExprType::Function(_) => {
            let args: Vec<f64> = n.parameters.iter().map(folded_eval).collect();
            apply(n.function.unwrap(), &args)
        }
        _ => eval(n),
    }
}

#[test]
fn folding_is_transparent() {
    let e = parse("2+3*sqrt(16)").unwrap();
    assert!(is_foldable(&e));
    assert_eq!(folded_eval(&e), eval(&e));
    assert_eq!(eval(&e), 14.0);
    let x = vec![Variable {
        name: String::from("x"),
        address: 2,
        function: None,
        v_type: ExprType::Variable,
        pure: false,
    }];
    let m = compile("x*2+sin(pi/2)^2-(1,3)", Some(x)).unwrap().unwrap();
    assert!(!is_foldable(&m));
    assert!(is_foldable(&m.parameters[0].parameters[1]));
    assert_eq!(folded_eval(&m), eval(&m));
    assert_eq!(eval(&m), 2.0);
}

#[test]
fn compiling_twice_gives_the_same_value() {
    let vars = vec![Variable {
        name: String::from("x"),
        address: 3,
        function: None,
        v_type: ExprType::Variable,
        pure: false,
    }];
    let a = compile("x*2+1", Some(vars.clone())).unwrap().unwrap();
    let b = compile("x*2+1", Some(vars)).unwrap().unwrap();
    assert_eq!(eval(&a), eval(&b));
    assert_eq!(eval(&a), 7.0);
}

#[test]
fn variables_evaluate_to_their_bound_value() {
    let mut x = Variable::new("x", ExprType::Variable);
    x.address = -4;
    let e = compile("x^2", Some(vec![x])).unwrap().unwrap();
    assert_eq!(eval(&e), 16.0);
}
