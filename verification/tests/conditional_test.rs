use yeti::Expression;
use yeti::RaisedEffect;

type TestOutcome = std::result::Result<(), RaisedEffect>;

#[test]
fn if_when_condition_is_true() -> TestOutcome {
    let env = yeti::environment();
    let (_, actual) = yeti::evaluate_source(env, "(if true 5 3)")?;
    let expected = Expression::Integer(5);
    assert!(yeti::expr_eq(&actual, &expected));
    Ok(())
}

#[test]
fn if_when_condition_is_false() -> TestOutcome {
    let env = yeti::environment();
    let (_, actual) = yeti::evaluate_source(env, "(if false 5 3)")?;
    let expected = Expression::Integer(3);
    assert!(yeti::expr_eq(&actual, &expected));
    Ok(())
}

#[test]
fn when_if_condition_is_true() -> TestOutcome {
    let env = yeti::environment();
    let (_, actual) = yeti::evaluate_source(env, "(when true 5)")?;
    let expected = Expression::Integer(5);
    assert!(yeti::expr_eq(&actual, &expected));
    Ok(())
}

#[test]
fn when_if_condition_is_false() -> TestOutcome {
    let env = yeti::environment();
    let (_, actual) = yeti::evaluate_source(env, "(when false 5)")?;
    let expected = Expression::Nil;
    assert!(yeti::expr_eq(&actual, &expected));
    Ok(())
}
