use yeti::Environment;
use yeti::Expression;
use yeti::Float;
use yeti::Pattern;
use yeti::RaisedEffect;

type TestOutcome = std::result::Result<(), RaisedEffect>;

fn parse_source(source: &str) -> Expression {
    let tokens = yeti::tokenize(source);
    yeti::parse(&tokens).expect("the source should parse")
}

#[test]
fn evaluate_keyword() -> TestOutcome {
    let expression = parse_source(":x");
    let environment = Environment::new();
    let (_, actual) = yeti::evaluate(environment, expression)?;
    let expected = Expression::Keyword(":x".to_string());
    assert!(yeti::expr_eq(&actual, &expected));
    Ok(())
}

#[test]
fn evaluate_string() -> TestOutcome {
    let expression = parse_source(r#""hello""#);
    let environment = Environment::new();
    let (_, actual) = yeti::evaluate(environment, expression)?;
    let expected = Expression::String("hello".to_string());
    assert!(yeti::expr_eq(&actual, &expected));
    Ok(())
}

#[test]
fn evaluate_integer() -> TestOutcome {
    let expression = parse_source("5");
    let environment = Environment::new();
    let (_, actual) = yeti::evaluate(environment, expression)?;
    let expected = Expression::Integer(5);
    assert!(yeti::expr_eq(&actual, &expected));
    Ok(())
}

#[test]
fn evaluate_float() -> TestOutcome {
    let expression = parse_source("3.14");
    let environment = Environment::new();
    let (_, actual) = yeti::evaluate(environment, expression)?;
    let expected = Expression::Float(Float { mantissa: 314, scale: 2 });
    assert!(yeti::expr_eq(&actual, &expected));
    Ok(())
}

#[test]
fn evaluate_symbol_bound_to_integer() -> TestOutcome {
    let expression = parse_source("x");
    let environment = Environment::new().insert("x", &Expression::Integer(5));
    let (_, actual) = yeti::evaluate(environment, expression)?;
    let expected = Expression::Integer(5);
    assert!(yeti::expr_eq(&actual, &expected));
    Ok(())
}

#[test]
fn evaluate_unbound_symbol() -> TestOutcome {
    let expression = parse_source("x");
    let environment = Environment::new();
    let (_, actual) = yeti::evaluate(environment, expression)?;
    let expected = Expression::Symbol("x".to_string());
    assert!(yeti::expr_eq(&actual, &expected));
    Ok(())
}

#[test]
fn evaluate_add() -> TestOutcome {
    let expression = parse_source("(+ 5 3)");
    let environment = yeti::environment();
    let (_, actual) = yeti::evaluate(environment, expression)?;
    let expected = Expression::Integer(8);
    assert!(yeti::expr_eq(&actual, &expected));
    Ok(())
}

#[test]
fn evaluate_if_then_branch() -> TestOutcome {
    let expression = parse_source("(if true 1 2)");
    let environment = yeti::environment();
    let (_, actual) = yeti::evaluate(environment, expression)?;
    assert!(yeti::expr_eq(&actual, &Expression::Integer(1)));
    Ok(())
}

#[test]
fn evaluate_if_else_branch() -> TestOutcome {
    let expression = parse_source("(if false 1 2)");
    let environment = yeti::environment();
    let (_, actual) = yeti::evaluate(environment, expression)?;
    assert!(yeti::expr_eq(&actual, &Expression::Integer(2)));
    Ok(())
}

#[test]
fn evaluate_def() -> TestOutcome {
    let expression = parse_source("(def x 5)");
    let environment = yeti::environment();
    let (actual_environment, actual) = yeti::evaluate(yeti::environment(), expression)?;
    assert!(yeti::expr_eq(&actual, &Expression::Nil));
    let expected_environment = environment.insert("x", &Expression::Integer(5));
    assert!(yeti::expr_eq(
        &Expression::Module(actual_environment),
        &Expression::Module(expected_environment),
    ));
    Ok(())
}

#[test]
fn evaluate_array() -> TestOutcome {
    let expression = parse_source("[(+ 1 2) (/ 4 3)]");
    let environment = yeti::environment();
    let (_, actual) = yeti::evaluate(environment, expression)?;
    let expected = Expression::Array(vec![Expression::Integer(3), Expression::Ratio(4, 3)]);
    assert!(yeti::expr_eq(&actual, &expected));
    Ok(())
}

#[test]
fn evaluate_map() -> TestOutcome {
    let expression = parse_source("{:a (+ 1 2) :b (/ 4 3)}");
    let environment = yeti::environment();
    let (_, actual) = yeti::evaluate(environment, expression)?;
    let expected = Expression::Mapping(vec![
        (Expression::Keyword(":a".to_string()), Expression::Integer(3)),
        (Expression::Keyword(":b".to_string()), Expression::Ratio(4, 3)),
    ]);
    assert!(yeti::expr_eq(&actual, &expected));
    Ok(())
}

#[test]
fn evaluate_quote() -> TestOutcome {
    let expression = parse_source("'(1 2)");
    let environment = yeti::environment();
    let (_, actual) = yeti::evaluate(environment, expression)?;
    let expected = Expression::Call {
        function: Box::new(Expression::Integer(1)),
        arguments: vec![Expression::Integer(2)],
    };
    assert!(yeti::expr_eq(&actual, &expected));
    Ok(())
}

#[test]
fn evaluate_eval() -> TestOutcome {
    let expression = parse_source("(eval '(+ 1 2))");
    let environment = yeti::environment();
    let (_, actual) = yeti::evaluate(environment, expression)?;
    assert!(yeti::expr_eq(&actual, &Expression::Integer(3)));
    Ok(())
}

#[test]
fn evaluate_read_string() -> TestOutcome {
    let expression = parse_source(r#"(read-string "(+ 1 2)")"#);
    let environment = yeti::environment();
    let (_, actual) = yeti::evaluate(environment, expression)?;
    let expected = Expression::Call {
        function: Box::new(Expression::Symbol("+".to_string())),
        arguments: vec![Expression::Integer(1), Expression::Integer(2)],
    };
    assert!(yeti::expr_eq(&actual, &expected));
    Ok(())
}

#[test]
fn evaluate_fn() -> TestOutcome {
    let expression = parse_source("(fn [x] (* x 2))");
    let environment = yeti::environment();
    let (_, actual) = yeti::evaluate(yeti::environment(), expression)?;
    let expected = Expression::Function {
        env: environment,
        patterns: vec![Pattern {
            parameters: vec![Expression::Symbol("x".to_string())],
            body: vec![Expression::Call {
                function: Box::new(Expression::Symbol("*".to_string())),
                arguments: vec![
                    Expression::Symbol("x".to_string()),
                    Expression::Integer(2),
                ],
            }],
        }],
    };
    assert!(yeti::expr_eq(&actual, &expected));
    Ok(())
}

#[test]
fn evaluate_call_fn() -> TestOutcome {
    let expression = parse_source("((fn [x] (* x 2)) 5)");
    let environment = yeti::environment();
    let (_, actual) = yeti::evaluate(environment, expression)?;
    assert!(yeti::expr_eq(&actual, &Expression::Integer(10)));
    Ok(())
}

#[test]
fn evaluate_defn() -> TestOutcome {
    let env = yeti::environment();
    let (env, actual) = yeti::evaluate_source(env, "(defn double [x] (* x 2))")?;
    assert!(yeti::expr_eq(&actual, &Expression::Nil));
    let (_, actual) = yeti::evaluate_source(env, "(double 5)")?;
    assert!(yeti::expr_eq(&actual, &Expression::Integer(10)));
    Ok(())
}

#[test]
fn evaluate_multiply_ratio_by_integer() -> TestOutcome {
    let expression = parse_source("(* 7/3 3)");
    let environment = yeti::environment();
    let (_, actual) = yeti::evaluate(environment, expression)?;
    assert!(yeti::expr_eq(&actual, &Expression::Integer(7)));
    Ok(())
}

#[test]
fn evaluate_multiply_integer_by_ratio() -> TestOutcome {
    let expression = parse_source("(* 3 7/3)");
    let environment = yeti::environment();
    let (_, actual) = yeti::evaluate(environment, expression)?;
    assert!(yeti::expr_eq(&actual, &Expression::Integer(7)));
    Ok(())
}

#[test]
fn evaluate_equality_when_true() -> TestOutcome {
    let expression = parse_source("(= 3 3)");
    let environment = yeti::environment();
    let (_, actual) = yeti::evaluate(environment, expression)?;
    assert!(yeti::expr_eq(&actual, &Expression::Bool(true)));
    Ok(())
}

#[test]
fn evaluate_equality_when_false() -> TestOutcome {
    let expression = parse_source("(= 3 4)");
    let environment = yeti::environment();
    let (_, actual) = yeti::evaluate(environment, expression)?;
    assert!(yeti::expr_eq(&actual, &Expression::Bool(false)));
    Ok(())
}

#[test]
fn evaluate_equality_of_floats() -> TestOutcome {
    let expression = parse_source("(= 3.4 3.4)");
    let environment = yeti::environment();
    let (_, actual) = yeti::evaluate(environment, expression)?;
    assert!(yeti::expr_eq(&actual, &Expression::Bool(true)));
    Ok(())
}

#[test]
fn evaluate_assert_true_does_nothing() -> TestOutcome {
    let expression = parse_source("(assert true)");
    let environment = yeti::environment();
    let (_, actual) = yeti::evaluate(environment, expression)?;
    assert!(yeti::expr_eq(&actual, &Expression::Nil));
    Ok(())
}

#[test]
fn evaluate_assert_false_raises_error() -> TestOutcome {
    let expression = parse_source("(assert false)");
    let environment = yeti::environment();
    let result = yeti::evaluate(environment, expression);
    assert!(result.is_err());
    Ok(())
}

#[test]
fn evaluate_str_concat() -> TestOutcome {
    let env = yeti::environment();
    let (env, actual) = yeti::evaluate_source(env, r#"(str "hello" " " "world")"#)?;
    let (_, expected) = yeti::evaluate_source(env, r#""hello world""#)?;
    assert!(yeti::expr_eq(&actual, &expected));
    Ok(())
}

#[test]
fn native_result_reenters_evaluation() -> TestOutcome {
    let env = yeti::environment();
    let env = env.insert("f", &Expression::NativeFunction(7));
    let mut store = yeti::Store::new();
    match yeti::evaluate_source_with(&mut store, env.duplicate(), "(+ (f) 1)") {
        Err(effect) => assert_eq!(effect.effect, "native"),
        Ok(_) => panic!("the native result is not yet supplied"),
    }
    let mut replay = yeti::Store::new();
    replay.supply_native(Expression::Integer(41));
    let (_, actual) = yeti::evaluate_source_with(&mut replay, env, "(+ (f) 1)")?;
    assert!(yeti::expr_eq(&actual, &Expression::Integer(42)));
    Ok(())
}
