use eva::error::{CalcError, MathError};
use eva::eval_expr;
use eva::lex::{AngleUnit, Function, FunctionContext, Numeral, Operator, Token};
use eva::parse::{to_postfix, Arg, EvalPlan, Step};

fn resolve(a: &Arg, results: &[f64], prev: Option<f64>) -> f64 {
    match a {
        Arg::Value(n) => match n {
            Numeral::Literal(cs) => cs
                .iter()
                .collect::<String>()
                .parse::<f64>()
                .unwrap_or(f64::NAN),
            Numeral::PrevAns => prev.unwrap_or(0.0),
            Numeral::E => std::f64::consts::E,
            Numeral::Pi => std::f64::consts::PI,
            Numeral::One => 1.0,
            Numeral::MinusOne => -1.0,
        },
        Arg::Computed(k) => results.get(*k).copied().unwrap_or(f64::NAN),
    }
}

fn factorial(n: f64) -> f64 {
    let answer = (1..=n.round() as u128).map(|u| u as f64).product::<f64>();
    if answer == 0.0 {
        return f64::INFINITY;
    }
    answer
}

fn apply_op(op: &Operator, x: f64, y: f64) -> Result<f64, CalcError> {
    if op.token == '/' && y == 0. {
        return Err(CalcError::Math(MathError::DivideByZero));
    }
    if op.token == '!' && (x < 0.0 || x.fract() != 0.0) {
        return Err(CalcError::Math(MathError::OutOfBounds));
    }
    if op.token == '!' && x == 0.0 {
        return Ok(1.0);
    }
    let result = match op.token {
        '+' => x + y,
        '-' => x - y,
        '*' => x * y,
        '/' => x / y,
        '%' => x % y,
        '^' => x.powf(y),
        '!' => factorial(x),
        _ => f64::NAN,
    };
    if !result.is_finite() {
        Err(CalcError::Math(MathError::TooLarge))
    } else {
        Ok(result)
    }
}

fn rad(ctx: &FunctionContext, x: f64) -> f64 {
    if ctx.angle_unit == AngleUnit::Radian {
        x
    } else {
        x.to_radians()
    }
}

fn apply_fn(ctx: &FunctionContext, f: &Function, args: &[f64]) -> Result<f64, CalcError> {
    let x = args[0];
    let result = match f {
        Function::Sin => rad(ctx, x).sin(),
        Function::Cos => rad(ctx, x).cos(),
        Function::Tan => rad(ctx, x).tan(),
        Function::Csc => rad(ctx, x).sin().recip(),
        Function::Sec => rad(ctx, x).cos().recip(),
        Function::Cot => rad(ctx, x).tan().recip(),
        Function::Sinh => x.sinh(),
        Function::Cosh => x.cosh(),
        Function::Tanh => x.tanh(),
        Function::Ln => x.ln(),
        Function::Log2 => x.log2(),
        Function::Log10 => x.log10(),
        Function::Sqrt => x.sqrt(),
        Function::Ceil => x.ceil(),
        Function::Floor => x.floor(),
        Function::Rad => x.to_radians(),
        Function::Deg => x.to_degrees(),
        Function::Abs => x.abs(),
        Function::Asin => x.asin(),
        Function::Acos => x.acos(),
        Function::Atan => x.atan(),
        Function::Acsc => (1. / x).asin(),
        Function::Asec => (1. / x).acos(),
        Function::Acot => (1. / x).atan(),
        Function::Exp => x.exp(),
        Function::Exp2 => x.exp2(),
        Function::Round => x.round(),
        Function::Log => x.log(args[1]),
        Function::Nroot => x.powf(1. / args[1]),
    };
    if result.is_finite() {
        Ok(result)
    } else {
        Err(CalcError::Math(MathError::OutOfBounds))
    }
}

fn dup_err(e: &CalcError) -> CalcError {
    match e {
        CalcError::Math(m) => CalcError::Math(*m),
        CalcError::Syntax(s) => CalcError::Syntax(s.clone()),
        CalcError::Parser(s) => CalcError::Parser(s.clone()),
        CalcError::Help => CalcError::Help,
    }
}

fn run_plan(ctx: &FunctionContext, plan: &EvalPlan, prev: Option<f64>) -> Result<f64, CalcError> {
    let mut results: Vec<f64> = Vec::new();
    for step in plan.steps.iter() {
        let v = match step {
            Step::Op { op, lhs, rhs } => {
                apply_op(op, resolve(lhs, &results, prev), resolve(rhs, &results, prev))?
            }
            Step::Fun { f, args } => {
                let xs: Vec<f64> = args.iter().map(|a| resolve(a, &results, prev)).collect();
                apply_fn(ctx, f, &xs)?
            }
        };
        results.push(v);
    }
    match &plan.outcome {
        Ok(a) => Ok(resolve(a, &results, prev)),
        Err(e) => Err(dup_err(e)),
    }
}

fn eval_fixed(
    ctx: &FunctionContext,
    fix: usize,
    input: &str,
    prev: Option<f64>,
) -> Result<f64, CalcError> {
    let plan = eval_expr(input, prev.is_some())?;
    let v = run_plan(ctx, &plan, prev)?;
    Ok(format!("{:.*}", fix, v).parse::<f64>().unwrap())
}

fn eval(input: &str, prev: Option<f64>) -> Result<f64, CalcError> {
    let ctx = FunctionContext::default();
    let fix = 10;
    let ans = eval_fixed(&ctx, fix, input, prev)?;
    Ok(format!("{:.*}", fix, ans).parse().unwrap())
}

#[test]
fn basic_ops() {
    let evaled = eval("6*2 + 3 + 12 -3", Some(0f64));
    assert_eq!(evaled, Ok(24.));
}

#[test]
fn trignometric_fns() {
    let evaled = eval("sin(30) + tan(45", Some(0f64));
    assert_eq!(evaled, Ok(1.5));
}

#[test]
fn brackets() {
    let evaled = eval("(((1 + 2 + 3) ^ 2 ) - 4)", Some(0f64));
    assert_eq!(evaled, Ok(32.));
}

#[test]
fn exponentiation() {
    let evaled = eval("2 ** 2 ** 3", None);
    assert_eq!(evaled, Ok(256.));
}

#[test]
fn floating_ops() {
    let evaled = eval("1.2816 + 1 + 1.2816/1.2", Some(0f64));
    assert_eq!(evaled, Ok(3.3496));
}

#[test]
fn inverse_trignometric_fns() {
    let evaled = eval("deg(asin(1) + acos(1))", Some(0f64));
    assert_eq!(evaled, Ok(90.));
}

#[test]
fn sigmoid_fns() {
    let evaled = eval("1 / (1 + e^-7)", Some(0f64));
    assert_eq!(evaled, Ok(0.9990889488));
}

#[test]
fn prev_ans() {
    let evaled = eval("_ + 9", Some(9f64));
    assert_eq!(evaled, Ok(18.0));
}

#[test]
fn eval_with_zero_prev() {
    let evaled = eval("9 + _ ", Some(0f64));
    assert_eq!(evaled, Ok(9.));
}

#[test]
fn eval_const_multiplication() {
    let evaled = eval("e2", None);
    assert_eq!(evaled, Ok(5.4365636569));
}

#[test]
fn eval_round() {
    let evaled = eval("round(0.5)+round(2.4)", None);
    assert_eq!(evaled, Ok(3.));
}

#[test]
fn eval_exp2() {
    let evaled = eval("exp2(8)", None);
    assert_eq!(evaled, Ok(256.));
}

#[test]
fn eval_exp() {
    let evaled = eval("exp(3)", None);
    assert_eq!(evaled, Ok(20.0855369232));
}

#[test]
fn eval_e_times_n() {
    let evaled = eval("e0", None);
    assert_eq!(evaled, Ok(0.));
}

#[test]
fn eval_factorial_large() {
    let evaled = eval("21!", None);
    assert_eq!(evaled, Ok(51_090_942_171_709_440_000.0));
}

#[test]
fn eval_nroot() {
    let evaled = eval("nroot(27, 3)", None);
    assert_eq!(evaled, Ok(3.));
}

#[test]
fn eval_log_n_base() {
    let evaled = eval("log(2^16,4)", None);
    assert_eq!(evaled, Ok(8.));
}

#[test]
fn eval_log_n_brackets() {
    let evaled = eval("log(1+(2^16),4)", None);
    assert_eq!(evaled, Ok(8.0000110068));
}

#[test]
fn eval_mismatched_parens_in_multiarg_fn() {
    let evaled = eval("log(1+(2^16, 4)", None);
    assert_eq!(
        evaled,
        Err(CalcError::Syntax("Mismatched parentheses!".to_string()))
    );
}

#[test]
fn eval_comma_without_multiarg_fn() {
    let evaled = eval("1+(2^16, 4)", None);
    assert_eq!(
        evaled,
        Err(CalcError::Syntax("Mismatched parentheses!".to_string()))
    );
}

#[test]
fn eval_unexpected_comma() {
    let evaled = eval("(1+1,2+2)", None);
    assert_eq!(
        evaled,
        Err(CalcError::Parser(
            "Too many operators, too few operands".to_string()
        ))
    );
}

#[test]
fn eval_nroot_expr_on_both_sides() {
    let evaled = eval("nroot(2+2,4+e^2)", None);
    assert_eq!(evaled, Ok(1.1294396449));
}

#[test]
fn eval_comma_left_paren_mixup() {
    let evaled = eval("exp 2,3)", None);
    assert_eq!(
        evaled,
        Err(CalcError::Syntax("Mismatched parentheses!".to_string()))
    );
    let evaled = eval("exp,2,3)", None);
    assert_eq!(
        evaled,
        Err(CalcError::Syntax("Mismatched parentheses!".to_string()))
    );
}

#[test]
fn eval_log2() {
    let evaled = eval("log2(1024)", None);
    assert_eq!(evaled, Ok(10.));
}

#[test]
fn eval_log10() {
    let evaled = eval("log10(1000)", None);
    assert_eq!(evaled, Ok(3.));
}

#[test]
fn eval_empty_argument() {
    let evaled = eval("log(2,,3)", None);
    assert_eq!(evaled, Err(CalcError::Syntax("Empty argument".to_string())));
}

#[test]
fn eval_mismatched_args() {
    let evaled = eval("nroot(23,3,4)", None);
    assert_eq!(
        evaled,
        Err(CalcError::Parser(
            "Too many operators, too few operands".to_string()
        ))
    );
    let evaled = eval("nroot(23)", None);
    assert_eq!(
        evaled,
        Err(CalcError::Parser(
            "Too few arguments for function, need 2".to_string()
        ))
    );
}

#[test]
fn eval_negative_factorial() {
    let evaled = eval("-1!", None);
    assert_eq!(Err(CalcError::Math(MathError::OutOfBounds)), evaled);
}

#[test]
fn round_trip_precision() {
    let ctx = FunctionContext::default();
    for fix in 1..=12 {
        assert_eq!(eval_fixed(&ctx, fix, "3.5", None), Ok(3.5));
    }
}

#[test]
fn divide_by_zero() {
    let evaled = eval("1/0", None);
    assert_eq!(evaled, Err(CalcError::Math(MathError::DivideByZero)));
}

#[test]
fn factorial_overflow_is_too_large() {
    let evaled = eval("200!", None);
    assert_eq!(evaled, Err(CalcError::Math(MathError::TooLarge)));
}

#[test]
fn unknown_function_is_rejected() {
    let evaled = eval("foo(2)", None);
    assert_eq!(
        evaled,
        Err(CalcError::Syntax("Unknown function 'foo'".to_string()))
    );
}

#[test]
fn function_without_parens_is_rejected() {
    let evaled = eval("sin2", None);
    assert_eq!(
        evaled,
        Err(CalcError::Syntax(
            "Function 'sin' expected parentheses".to_string()
        ))
    );
    // the same error at end of input, where the pending name is flushed
    let evaled = eval("sin", None);
    assert_eq!(
        evaled,
        Err(CalcError::Syntax(
            "Function 'sin' expected parentheses".to_string()
        ))
    );
}

#[test]
fn leftover_open_paren_is_rejected_by_the_converter() {
    let r = to_postfix(vec![Token::LParen]);
    assert_eq!(
        r.map(|ts| ts.len()),
        Err(CalcError::Syntax("Mismatched parentheses!".to_string()))
    );
    let r = to_postfix(vec![Token::Num(Numeral::One), Token::LParen, Token::Num(Numeral::One)]);
    assert_eq!(
        r.map(|ts| ts.len()),
        Err(CalcError::Syntax("Mismatched parentheses!".to_string()))
    );
}

#[test]
fn unexpected_character_is_rejected() {
    let evaled = eval("xy2", None);
    assert_eq!(
        evaled,
        Err(CalcError::Syntax("Unexpected character 'xy2'".to_string()))
    );
}

#[test]
fn unexpected_token_is_rejected() {
    let evaled = eval("2#3", None);
    assert_eq!(
        evaled,
        Err(CalcError::Syntax("Unexpected token: '#'".to_string()))
    );
}

#[test]
fn missing_previous_answer_is_rejected() {
    let evaled = eval("_ + 1", None);
    assert_eq!(
        evaled,
        Err(CalcError::Syntax("No previous answer!".to_string()))
    );
}

#[test]
fn help_keyword_is_signaled() {
    assert_eq!(eval("  help ", None), Err(CalcError::Help));
}

#[test]
fn empty_input_is_zero() {
    assert_eq!(eval("   ", None), Ok(0.));
}

#[test]
fn implicit_multiplication() {
    assert_eq!(eval("(1+1)(2+2)", None), Ok(8.));
    assert_eq!(eval("3(4)", None), Ok(12.));
    assert_eq!(eval("2pi", None), Ok(6.2831853072));
}

#[test]
fn remaining_registry_functions() {
    assert_eq!(eval("sqrt(16)", None), Ok(4.));
    assert_eq!(eval("abs(0-3)", None), Ok(3.));
    assert_eq!(eval("ceil(1.2)", None), Ok(2.));
    assert_eq!(eval("floor(1.8)", None), Ok(1.));
    assert_eq!(eval("ln(e)", None), Ok(1.));
    assert_eq!(eval("sinh(0)", None), Ok(0.));
    assert_eq!(eval("cosh(0)", None), Ok(1.));
    assert_eq!(eval("tanh(0)", None), Ok(0.));
    assert_eq!(eval("csc(30)", None), Ok(2.));
    assert_eq!(eval("sec(60)", None), Ok(2.));
    assert_eq!(eval("cot(45)", None), Ok(1.));
    assert_eq!(eval("cos(60)", None), Ok(0.5));
    assert_eq!(eval("atan(1)", None), Ok(0.7853981634));
    assert_eq!(eval("acsc(1)", None), Ok(1.5707963268));
    assert_eq!(eval("asec(1)", None), Ok(0.));
    assert_eq!(eval("acot(1)", None), Ok(0.7853981634));
    assert_eq!(eval("rad(180)", None), Ok(3.1415926536));
}

#[test]
fn factorial_of_small_numbers() {
    assert_eq!(eval("5!", None), Ok(120.));
    assert_eq!(eval("0!", None), Ok(1.));
}

#[test]
fn malformed_numeral_is_never_a_number() {
    // a buffer with two decimal points never parses, so no number token is
    // emitted and the empty run is an operand shortage
    let evaled = eval("1.2.3", None);
    assert_eq!(
        evaled,
        Err(CalcError::Parser(
            "Too many operators, too few operands".to_string()
        ))
    );
}

#[test]
fn modulo_and_unary_sign() {
    assert_eq!(eval("7 % 3", None), Ok(1.));
    assert_eq!(eval("-2 + 5", None), Ok(3.));
    assert_eq!(eval("2^-1", None), Ok(0.5));
}

#[test]
fn same_expression_same_result() {
    let a = eval("sin(30) + 2^10 / nroot(27,3)", Some(4.5));
    let b = eval("sin(30) + 2^10 / nroot(27,3)", Some(4.5));
    assert_eq!(a, b);
    assert!(a.is_ok());
}
