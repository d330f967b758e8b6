use yeti::Expression;
use yeti::RaisedEffect;

type TestOutcome = std::result::Result<(), RaisedEffect>;

fn run(source: &str) -> Expression {
    let env = yeti::environment();
    let (_, value) = yeti::evaluate_source(env, source).expect("the source should evaluate");
    value
}

#[test]
fn adding_zero_is_identity() {
    assert!(yeti::expr_eq(&run("(+ 7/3 0)"), &Expression::Ratio(7, 3)));
    assert!(yeti::expr_eq(&run("(+ 5 0)"), &Expression::Integer(5)));
}

#[test]
fn multiplying_by_one_is_identity() {
    assert!(yeti::expr_eq(&run("(* 5/6 1)"), &Expression::Ratio(5, 6)));
    assert!(yeti::expr_eq(&run("(* -4 1)"), &Expression::Integer(-4)));
}

#[test]
fn dividing_by_self_is_one() {
    assert!(yeti::expr_eq(&run("(/ 7/3 7/3)"), &Expression::Integer(1)));
    assert!(yeti::expr_eq(&run("(/ -9 -9)"), &Expression::Integer(1)));
}

#[test]
fn dividing_then_multiplying_restores() {
    assert!(yeti::expr_eq(&run("(* (/ 4 6) 6)"), &Expression::Integer(4)));
    assert!(yeti::expr_eq(&run("(* (/ -10 4) 4)"), &Expression::Integer(-10)));
}

#[test]
fn division_yields_reduced_ratio() {
    assert!(yeti::expr_eq(&run("(/ 4 3)"), &Expression::Ratio(4, 3)));
    assert!(yeti::expr_eq(&run("(/ 4 6)"), &Expression::Ratio(2, 3)));
    assert!(yeti::expr_eq(&run("(/ 6 3)"), &Expression::Integer(2)));
    assert!(yeti::expr_eq(&run("(/ 4 -6)"), &Expression::Ratio(-2, 3)));
}

#[test]
fn division_by_zero_raises_error() {
    let env = yeti::environment();
    match yeti::evaluate_source(env, "(/ 1 0)") {
        Err(effect) => assert_eq!(effect.effect, "error"),
        Ok(_) => panic!("dividing by zero cannot succeed"),
    }
}

#[test]
fn arithmetic_on_text_raises_type_effect() {
    let env = yeti::environment();
    match yeti::evaluate_source(env, "(+ 1 \"a\")") {
        Err(effect) => assert_eq!(effect.effect, "type"),
        Ok(_) => panic!("adding text cannot succeed"),
    }
}

#[test]
fn integer_overflow_raises_error() {
    let env = yeti::environment();
    match yeti::evaluate_source(env, "(* 999999999999999999 999999999999999999)") {
        Err(effect) => assert_eq!(effect.effect, "error"),
        Ok(_) => panic!("the sum does not fit the machine range"),
    }
}

#[test]
fn assoc_dissoc_round_trip() {
    let before = run("{:a 1}");
    let after = run("(dissoc (assoc {:a 1} :b 2) :b)");
    assert!(yeti::expr_eq(&before, &after));
}

#[test]
fn assoc_replaces_and_sorts() {
    assert!(yeti::expr_eq(&run("(assoc {:b 2} :a 1)"), &run("{:a 1, :b 2}")));
    assert!(yeti::expr_eq(&run("(assoc {:a 1} :a 3)"), &run("{:a 3}")));
}

#[test]
fn merge_lets_the_right_side_win() {
    assert!(yeti::expr_eq(&run("(merge {:a 1 :c 5} {:b 2 :a 3})"), &run("{:a 3 :b 2 :c 5}")));
}

#[test]
fn maps_are_sorted_by_key() {
    assert!(yeti::expr_eq(&run("{:b 2 :a 1}"), &run("{:a 1 :b 2}")));
}

#[test]
fn comparisons_follow_the_numeric_order() {
    assert!(yeti::expr_eq(&run("(< 1 4/3)"), &Expression::Bool(true)));
    assert!(yeti::expr_eq(&run("(< 4/3 2)"), &Expression::Bool(true)));
    assert!(yeti::expr_eq(&run("(<= 3 3)"), &Expression::Bool(true)));
    assert!(yeti::expr_eq(&run("(> 2 7/2)"), &Expression::Bool(false)));
    assert!(yeti::expr_eq(&run("(>= 7/2 7/2)"), &Expression::Bool(true)));
}

#[test]
fn equality_is_structural() {
    assert!(yeti::expr_eq(&run("(= [1 2] [1 2])"), &Expression::Bool(true)));
    assert!(yeti::expr_eq(&run("(= [1 2] [2 1])"), &Expression::Bool(false)));
    assert!(yeti::expr_eq(&run("(= {:a 1} {:a 1})"), &Expression::Bool(true)));
    assert!(yeti::expr_eq(&run("(= 3.0 3)"), &Expression::Bool(false)));
}

#[test]
fn quoting_preserves_structure() {
    let quoted = run("'(+ 1 2)");
    let expected = Expression::Call {
        function: Box::new(Expression::Symbol("+".to_string())),
        arguments: vec![Expression::Integer(1), Expression::Integer(2)],
    };
    assert!(yeti::expr_eq(&quoted, &expected));
    assert!(yeti::expr_eq(&run("(eval '(+ 1 2))"), &Expression::Integer(3)));
}

#[test]
fn read_string_equals_parse_of_tokens() {
    let through_read = run("(read-string \"[1 :a \\\"s\\\"]\")");
    let tokens = yeti::tokenize("[1 :a \"s\"]");
    let direct = yeti::parse(&tokens).expect("the source should parse");
    assert!(yeti::expr_eq(&through_read, &direct));
}

#[test]
fn evaluating_a_literal_is_idempotent() -> TestOutcome {
    let env = yeti::environment();
    let (env, once) = yeti::evaluate_source(env, "3/2")?;
    let (_, twice) = yeti::evaluate(env, {
        let tokens = yeti::tokenize("3/2");
        yeti::parse(&tokens).expect("the source should parse")
    })?;
    assert!(yeti::expr_eq(&once, &twice));
    Ok(())
}

#[test]
fn pattern_matching_destructures() {
    let env = yeti::environment();
    let (env, _) =
        yeti::evaluate_source(env, "(defn second [[a b]] b)").expect("defn should succeed");
    let (_, value) = yeti::evaluate_source(env, "(second [1 2])").expect("call should succeed");
    assert!(yeti::expr_eq(&value, &Expression::Integer(2)));
}

#[test]
fn literal_pattern_requires_equality() {
    let env = yeti::environment();
    let (env, _) =
        yeti::evaluate_source(env, "(defn zero? [0] true)").expect("defn should succeed");
    let (_, value) = yeti::evaluate_source(env.insert("keep", &Expression::Nil), "(zero? 0)")
        .expect("call should succeed");
    assert!(yeti::expr_eq(&value, &Expression::Bool(true)));
    let env2 = yeti::environment();
    let (env2, _) =
        yeti::evaluate_source(env2, "(defn zero? [0] true)").expect("defn should succeed");
    match yeti::evaluate_source(env2, "(zero? 1)") {
        Err(effect) => assert_eq!(effect.effect, "arity"),
        Ok(_) => panic!("the literal clause cannot match"),
    }
}

#[test]
fn calling_an_unbound_name_raises_unbound() {
    let env = yeti::environment();
    match yeti::evaluate_source(env, "(nosuch 1)") {
        Err(effect) => assert_eq!(effect.effect, "unbound"),
        Ok(_) => panic!("an unbound call position cannot succeed"),
    }
}

#[test]
fn calling_a_number_is_not_callable() {
    let env = yeti::environment();
    match yeti::evaluate_source(env, "(1 2)") {
        Err(effect) => assert_eq!(effect.effect, "not callable"),
        Ok(_) => panic!("a number is not callable"),
    }
}

#[test]
fn malformed_source_raises_parse_error() {
    let env = yeti::environment();
    match yeti::evaluate_source(env, "(+ 1") {
        Err(effect) => assert_eq!(effect.effect, "parse-error"),
        Ok(_) => panic!("an unclosed call cannot parse"),
    }
}

#[test]
fn malformed_lexeme_raises_tokenize_error() {
    let env = yeti::environment();
    match yeti::evaluate_source(env, "\"abc") {
        Err(effect) => assert_eq!(effect.effect, "tokenize-error"),
        Ok(_) => panic!("an unterminated string cannot tokenize"),
    }
}

#[test]
fn html_renders_tags() {
    assert!(yeti::expr_eq(
        &run("(html [:div \"hi\"])"),
        &Expression::String("<div>hi</div>".to_string()),
    ));
    assert!(yeti::expr_eq(
        &run("(html [:ul [:li \"item\"]])"),
        &Expression::String("<ul><li>item</li></ul>".to_string()),
    ));
    assert!(yeti::expr_eq(
        &run("(html [:ul [:li \"first\"] [:li \"second\"]])"),
        &Expression::String("<ul><li>first</li><li>second</li></ul>".to_string()),
    ));
    assert!(yeti::expr_eq(
        &run("(html [:br])"),
        &Expression::String("<br></br>".to_string()),
    ));
    let env = yeti::environment();
    match yeti::evaluate_source(env, "(html [1])") {
        Err(effect) => assert_eq!(effect.effect, "error"),
        Ok(_) => panic!("a tag must be a keyword"),
    }
}

#[test]
fn assert_raises_its_own_tag() {
    let env = yeti::environment();
    match yeti::evaluate_source(env, "(assert nil)") {
        Err(effect) => assert_eq!(effect.effect, "assert"),
        Ok(_) => panic!("asserting nil cannot succeed"),
    }
}

#[test]
fn decimal_arithmetic_is_exact() {
    assert!(yeti::expr_eq(&run("(+ 1.5 1)"), &run("2.5")));
    assert!(yeti::expr_eq(&run("(* 2.5 2)"), &run("5.0")));
    assert!(yeti::expr_eq(&run("(+ 0.5 0.25)"), &run("0.75")));
    assert!(yeti::expr_eq(&run("(- 1 0.25)"), &run("0.75")));
    assert!(yeti::expr_eq(&run("(/ 1.5 2)"), &run("0.75")));
    assert!(yeti::expr_eq(&run("(+ 1/2 0.25)"), &run("0.75")));
}

#[test]
fn decimal_identities_hold() {
    assert!(yeti::expr_eq(&run("(+ 1.5 0)"), &run("1.5")));
    assert!(yeti::expr_eq(&run("(* 1.5 1)"), &run("1.5")));
}

#[test]
fn inexact_decimal_quotient_raises_error() {
    let env = yeti::environment();
    match yeti::evaluate_source(env, "(/ 1.0 3)") {
        Err(effect) => assert_eq!(effect.effect, "error"),
        Ok(_) => panic!("a third has no exact decimal"),
    }
}
