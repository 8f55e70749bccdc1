use mopso_cli::expr::{check_arity, compile_expr, BinOp, CompiledExpr, Expr, Token, Tokenizer};
use std::collections::HashMap;

// The library parses and checks expressions; it does not evaluate them, since
// evaluation is floating point and lives with the program, which tests cannot link.
// The evaluation tests below check the meaning of the trees that `compile_expr` and
// `CompiledExpr` build by running them through `reference_eval`, a small evaluator
// that gives each node its plain mathematical reading.

/// Evaluates a tree over `f64`: each operator and function as its usual meaning,
/// division by zero as infinity, the square root of a negative number as NaN.
fn reference_eval(expr: &Expr, vars: &HashMap<String, f64>) -> Result<f64, String> {
    match expr {
        Expr::Number(text) => text.parse::<f64>().map_err(|e| e.to_string()),
        Expr::Variable(name) => vars.get(name).copied().ok_or_else(|| format!("Undefined variable: {}", name)),
        Expr::BinaryOp { op, left, right } => {
            let l = reference_eval(left, vars)?;
            let r = reference_eval(right, vars)?;
            Ok(match op {
                BinOp::Add => l + r,
                BinOp::Sub => l - r,
                BinOp::Mul => l * r,
                BinOp::Div => {
                    if r == 0.0 {
                        f64::INFINITY
                    } else {
                        l / r
                    }
                }
                BinOp::Pow => l.powf(r),
            })
        }
        Expr::UnaryMinus(inner) => Ok(-reference_eval(inner, vars)?),
        Expr::FuncCall { name, args } => {
            check_arity(name, args.len())?;
            if name == "pow" {
                return Ok(reference_eval(&args[0], vars)?.powf(reference_eval(&args[1], vars)?));
            }
            let v = reference_eval(&args[0], vars)?;
            match name.as_str() {
                "sin" => Ok(v.sin()),
                "cos" => Ok(v.cos()),
                "tan" => Ok(v.tan()),
                "exp" => Ok(v.exp()),
                "log" => Ok(v.ln()),
                "sqrt" => Ok(if v < 0.0 { f64::NAN } else { v.sqrt() }),
                "abs" => Ok(v.abs()),
                "asin" => Ok(v.asin()),
                "acos" => Ok(v.acos()),
                "atan" => Ok(v.atan()),
                "ceil" => Ok(v.ceil()),
                "floor" => Ok(v.floor()),
                "log2" => Ok(v.log2()),
                "log10" => Ok(v.log10()),
                _ => Err(format!("Unknown function: {}", name)),
            }
        }
    }
}

fn reference_eval_compiled(expr: &CompiledExpr, values: &[f64]) -> Result<f64, String> {
    let pairs = expr.bind_values(values)?;
    let vars: HashMap<String, f64> = pairs.into_iter().collect();
    reference_eval(expr.ast(), &vars)
}

#[test]
fn test_basic_arithmetic() {
    let vars = HashMap::new();
    let expr = compile_expr("2 + 3 * 4").unwrap();
    assert_eq!(reference_eval(&expr, &vars).unwrap(), 14.0);
}

#[test]
fn test_variable() {
    let mut vars = HashMap::new();
    vars.insert("x".to_string(), 5.0);
    let expr = compile_expr("x * 2 + 1").unwrap();
    assert_eq!(reference_eval(&expr, &vars).unwrap(), 11.0);
}

#[test]
fn test_function() {
    let mut vars = HashMap::new();
    vars.insert("x".to_string(), 0.0);
    let expr = compile_expr("sin(x) + cos(x)").unwrap();
    let result = reference_eval(&expr, &vars).unwrap();
    assert!((result - 1.0).abs() < 1e-10);
}

#[test]
fn test_power() {
    let vars = HashMap::new();
    let expr = compile_expr("2 ^ 10").unwrap();
    assert_eq!(reference_eval(&expr, &vars).unwrap(), 1024.0);
}

#[test]
fn test_unary_minus() {
    let mut vars = HashMap::new();
    vars.insert("x".to_string(), 3.0);
    let expr = compile_expr("-x + 5").unwrap();
    assert_eq!(reference_eval(&expr, &vars).unwrap(), 2.0);
}

#[test]
fn test_parentheses() {
    let vars = HashMap::new();
    let expr = compile_expr("(2 + 3) * 4").unwrap();
    assert_eq!(reference_eval(&expr, &vars).unwrap(), 20.0);
}

#[test]
fn test_reject_unknown_func() {
    let mut tokenizer = Tokenizer::new("system('rm -rf /')");
    let result = tokenizer.tokenize();
    assert!(result.is_err());
}

#[test]
fn test_variable_order_independence() {
    let allowed = vec!["x".to_string(), "y".to_string()];
    let expr = CompiledExpr::new("y*y + x*x", &allowed).unwrap();
    let values = vec![3.0, 4.0];
    let result = reference_eval_compiled(&expr, &values).unwrap();
    assert!((result - 25.0).abs() < 1e-10);
}

#[test]
fn test_pow_function() {
    let allowed = vec!["x".to_string(), "y".to_string()];
    let expr = CompiledExpr::new("pow(x, 3) + pow(y, 2)", &allowed).unwrap();
    let values = vec![2.0, 3.0];
    let result = reference_eval_compiled(&expr, &values).unwrap();
    assert!((result - (8.0 + 9.0)).abs() < 1e-10);
    assert!((result - 17.0).abs() < 1e-10);
}

#[test]
fn tokenize_numbers_names_and_operators() {
    let mut t = Tokenizer::new("3.5*x_1 - sqrt(2)");
    let tokens = t.tokenize().unwrap();
    assert_eq!(
        tokens,
        vec![
            Token::Number("3.5".to_string()),
            Token::Star,
            Token::Variable("x_1".to_string()),
            Token::Minus,
            Token::Func("sqrt".to_string()),
            Token::LParen,
            Token::Number("2".to_string()),
            Token::RParen,
        ]
    );
}

#[test]
fn tokenize_unexpected_character_message() {
    let mut t = Tokenizer::new("system('rm -rf /')");
    assert_eq!(t.tokenize(), Err("Unexpected character: '''".to_string()));
    let mut u = Tokenizer::new("x # y");
    assert_eq!(u.tokenize(), Err("Unexpected character: '#'".to_string()));
}

#[test]
fn tokenize_unknown_name_is_a_variable() {
    let mut t = Tokenizer::new("system(1)");
    assert_eq!(
        t.tokenize(),
        Ok(vec![
            Token::Variable("system".to_string()),
            Token::LParen,
            Token::Number("1".to_string()),
            Token::RParen,
        ])
    );
}

#[test]
fn tokenize_invalid_number_message() {
    let mut t = Tokenizer::new("1.2.3");
    assert_eq!(t.tokenize(), Err("Invalid number: 1.2.3".to_string()));
    let mut u = Tokenizer::new(". + 1");
    assert_eq!(u.tokenize(), Err("Invalid number: .".to_string()));
    let mut v = Tokenizer::new("5.");
    assert_eq!(v.tokenize(), Ok(vec![Token::Number("5.".to_string())]));
}

#[test]
fn tokenizer_peek_and_advance() {
    let mut t = Tokenizer::new("ab");
    assert_eq!(t.peek(), Some('a'));
    assert_eq!(t.advance(), Some('a'));
    assert_eq!(t.advance(), Some('b'));
    assert_eq!(t.peek(), None);
    assert_eq!(t.advance(), None);
    assert_eq!(t.peek(), None);
}

#[test]
fn power_does_not_chain() {
    assert_eq!(compile_expr("2 ^ 3 ^ 2").err(), Some("Unexpected token after expression".to_string()));
    let vars = HashMap::new();
    let expr = compile_expr("-2 ^ 2").unwrap();
    assert_eq!(reference_eval(&expr, &vars).unwrap(), 4.0);
}

#[test]
fn parse_error_messages() {
    assert_eq!(compile_expr("(1 + 2").err(), Some("Expected ')'".to_string()));
    assert_eq!(compile_expr("1 +").err(), Some("Unexpected token in expression".to_string()));
    assert_eq!(compile_expr("1 2").err(), Some("Unexpected token after expression".to_string()));
    assert_eq!(compile_expr("").err(), Some("Unexpected token in expression".to_string()));
    assert_eq!(compile_expr("sin 1").err(), Some("Expected '(' after function name sin".to_string()));
    assert_eq!(
        compile_expr("pow(1, 2").err(),
        Some("Expected ')' after function arguments for pow".to_string())
    );
}

#[test]
fn compiled_expr_unknown_variable_message() {
    let allowed = vec!["x".to_string(), "y".to_string()];
    let err = CompiledExpr::new("x + z + w", &allowed).err().unwrap();
    assert_eq!(err, "Unknown variable 'z' in expression. Allowed: [\"x\", \"y\"]");
}

#[test]
fn compiled_expr_binds_first_index_of_each_name() {
    let allowed = vec!["a".to_string(), "b".to_string(), "a".to_string()];
    let expr = CompiledExpr::new("b + a + b", &allowed).unwrap();
    let pairs = expr.bind_values(&[10, 20, 30]).unwrap();
    assert_eq!(pairs, vec![("b".to_string(), 20), ("a".to_string(), 10)]);
}

#[test]
fn bind_values_out_of_bounds_message() {
    let allowed = vec!["x".to_string(), "y".to_string()];
    let expr = CompiledExpr::new("y + 1", &allowed).unwrap();
    let err = expr.bind_values(&[1.0]).err().unwrap();
    assert_eq!(err, "Variable 'y' index 1 out of bounds (values len: 1)");
}

#[test]
fn arity_messages() {
    assert_eq!(check_arity("pow", 1), Err("pow() requires exactly 2 arguments, got 1".to_string()));
    assert_eq!(check_arity("sin", 2), Err("sin() requires exactly 1 argument, got 2".to_string()));
    assert_eq!(check_arity("pow", 2), Ok(()));
    assert_eq!(check_arity("cos", 1), Ok(()));
}

#[test]
fn division_by_zero_evaluates_to_infinity() {
    let vars = HashMap::new();
    let expr = compile_expr("1 / 0").unwrap();
    assert_eq!(reference_eval(&expr, &vars).unwrap(), f64::INFINITY);
}

#[test]
fn only_allowed_functions_can_be_called() {
    assert_eq!(compile_expr("system(1)").err(), Some("Unexpected token after expression".to_string()));
    assert!(compile_expr("exp(1) + log10(2)").is_ok());
}
