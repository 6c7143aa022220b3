use eva::error::{blocks, handler, CalcError, MathError};
use eva::format::{autobalance_parens, thousand_sep};

#[test]
fn thousand_sep_groups_from_the_right() {
    assert_eq!(thousand_sep("1234567"), "1,234,567");
    assert_eq!(thousand_sep("123456"), "123,456");
    assert_eq!(thousand_sep("12"), "12");
    assert_eq!(thousand_sep(""), "");
}

#[test]
fn thousand_sep_skips_the_sign() {
    assert_eq!(thousand_sep("-123456"), "-123,456");
    assert_eq!(thousand_sep("-1234"), "-1,234");
}

#[test]
fn autobalance_appends_missing_closers() {
    assert_eq!(autobalance_parens("((1+2"), Ok("((1+2))".to_string()));
    assert_eq!(autobalance_parens("(1)"), Ok("(1)".to_string()));
    assert_eq!(autobalance_parens("sin(30"), Ok("sin(30)".to_string()));
}

#[test]
fn autobalance_rejects_extra_closers() {
    assert_eq!(
        autobalance_parens("(1))"),
        Err(CalcError::Syntax("Mismatched parentheses!".to_string()))
    );
    assert_eq!(
        autobalance_parens("1+2)"),
        Err(CalcError::Syntax("Mismatched parentheses!".to_string()))
    );
    // equal counts pass through untouched, whatever their order
    assert_eq!(autobalance_parens(")("), Ok(")(".to_string()));
}

#[test]
fn handler_math_messages() {
    assert_eq!(
        handler(CalcError::Math(MathError::DivideByZero)),
        "Math Error: Divide by zero error!"
    );
    assert_eq!(
        handler(CalcError::Math(MathError::OutOfBounds)),
        "Domain Error: Out of bounds!"
    );
    assert_eq!(
        handler(CalcError::Math(MathError::UnknownBase)),
        "Base too large! Accepted ranges: 0 - 36"
    );
    assert_eq!(
        handler(CalcError::Math(MathError::TooLarge)),
        format!("Error: to large to process! Max value: {}", f64::MAX)
    );
}

#[test]
fn handler_wraps_details() {
    assert_eq!(
        handler(CalcError::Syntax("Empty argument".to_string())),
        "Syntax Error: Empty argument"
    );
    assert_eq!(
        handler(CalcError::Parser("Too many operators, too few operands".to_string())),
        "Parser Error: Too many operators, too few operands"
    );
}

#[test]
fn blocks_pads_names_into_lines() {
    let items: Vec<&str> = vec!["e", "pi"];
    assert_eq!(blocks(79, &items), "       e      pi\n");
    let items: Vec<&str> = vec!["a", "b", "c"];
    assert_eq!(blocks(16, &items), "       a       b\n       c\n");
    let empty: Vec<&str> = vec![];
    assert_eq!(blocks(79, &empty), "");
}

#[test]
fn handler_help_lists_the_registry() {
    let names = [
        "sin", "cos", "tan", "csc", "sec", "cot", "sinh", "cosh", "tanh", "ln", "log2", "log10",
        "sqrt", "ceil", "floor", "rad", "deg", "abs", "asin", "acos", "atan", "acsc", "asec",
        "acot", "exp", "exp2", "round", "log", "nroot",
    ];
    let mut fn_block = String::new();
    for (i, name) in names.iter().enumerate() {
        fn_block.push_str(&format!("{:>8}", name));
        if (i + 1) % 9 == 0 {
            fn_block.push('\n');
        }
    }
    fn_block.push('\n');
    let expected = format!(
        "Constants\n       e      pi\n\nFunctions\n{}\nOperators\n+ - * / % ^ !\n",
        fn_block
    );
    assert_eq!(handler(CalcError::Help), expected);
}
