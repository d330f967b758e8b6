use yeti::Environment;
use yeti::Expression;
use yeti::RaisedEffect;
use yeti::Store;

type TestOutcome = std::result::Result<(), RaisedEffect>;

#[test]
fn create_a_channel() -> TestOutcome {
    let env = yeti::environment();
    let (_, actual) = yeti::evaluate_source(env, "(chan)")?;
    assert!(matches!(actual, Expression::Channel(_)));
    Ok(())
}

#[test]
fn channel_with_specified_buffer_size() -> TestOutcome {
    let mut store = Store::new();
    let env = yeti::environment();
    let (env, _) = yeti::evaluate_source_with(&mut store, env, "(def c (chan 3))")?;
    let (env, first) = yeti::evaluate_source_with(&mut store, env, "(put! c 1)")?;
    assert!(yeti::expr_eq(&first, &Expression::Nil));
    let (env, _) = yeti::evaluate_source_with(&mut store, env, "(put! c 2)")?;
    let (env, _) = yeti::evaluate_source_with(&mut store, env, "(put! c 3)")?;
    let (_, taken) = yeti::evaluate_source_with(&mut store, env, "(take! c)")?;
    assert!(yeti::expr_eq(&taken, &Expression::Integer(1)));
    Ok(())
}

#[test]
fn take_then_put_channel() -> TestOutcome {
    let mut store = Store::new();
    let env = yeti::environment();
    let (env, _) = yeti::evaluate_source_with(&mut store, env, "(def c (chan))")?;
    let (env, handle) = yeti::evaluate_source_with(&mut store, env, "(spawn (take! c))")?;
    let task = match handle {
        Expression::NativeType(id) => id,
        _ => panic!("spawn should hand back a task handle"),
    };
    let (_, put_result) =
        yeti::evaluate_source_with(&mut store, env, "(put! c \"hello channel\")")?;
    assert!(yeti::expr_eq(&put_result, &Expression::Nil));
    let observed = store.task_result(task).expect("the spawned take should have completed");
    assert!(yeti::expr_eq(
        &observed,
        &Expression::String("hello channel".to_string()),
    ));
    Ok(())
}

#[test]
fn channel_is_first_in_first_out() -> TestOutcome {
    let mut store = Store::new();
    let env = yeti::environment();
    let (env, _) = yeti::evaluate_source_with(&mut store, env, "(def c (chan 2))")?;
    let (env, _) = yeti::evaluate_source_with(&mut store, env, "(put! c 10)")?;
    let (env, _) = yeti::evaluate_source_with(&mut store, env, "(put! c 20)")?;
    let (env, first) = yeti::evaluate_source_with(&mut store, env, "(take! c)")?;
    let (_, second) = yeti::evaluate_source_with(&mut store, env, "(take! c)")?;
    assert!(yeti::expr_eq(&first, &Expression::Integer(10)));
    assert!(yeti::expr_eq(&second, &Expression::Integer(20)));
    Ok(())
}

#[test]
fn blocked_take_is_cancelled() {
    let mut store = Store::new();
    let env = yeti::environment();
    let (env, _) = yeti::evaluate_source_with(&mut store, env, "(def c (chan))").unwrap();
    let result = yeti::evaluate_source_with(&mut store, env, "(take! c)");
    match result {
        Err(effect) => assert_eq!(effect.effect, "cancelled"),
        Ok(_) => panic!("a take with no putter cannot complete"),
    }
}

#[test]
fn atom_swaps_accumulate() -> TestOutcome {
    let mut store = Store::new();
    let env = yeti::environment();
    let (env, _) = yeti::evaluate_source_with(&mut store, env, "(def a (atom 0))")?;
    let (env, _) = yeti::evaluate_source_with(&mut store, env, "(defn bump [x] (+ x 1))")?;
    let (env, _) = yeti::evaluate_source_with(&mut store, env, "(spawn (swap! a bump))")?;
    let (env, _) = yeti::evaluate_source_with(&mut store, env, "(spawn (swap! a bump))")?;
    let (env, _) = yeti::evaluate_source_with(&mut store, env, "(spawn (swap! a bump))")?;
    yeti::drain_tasks(&mut store, &env, yeti::DEFAULT_FUEL)?;
    let (_, value) = yeti::evaluate_source_with(&mut store, env, "@a")?;
    assert!(yeti::expr_eq(&value, &Expression::Integer(3)));
    Ok(())
}

#[test]
fn atom_reset_and_deref() -> TestOutcome {
    let mut store = Store::new();
    let env = yeti::environment();
    let (env, _) = yeti::evaluate_source_with(&mut store, env, "(def a (atom nil))")?;
    let (env, reset) = yeti::evaluate_source_with(&mut store, env, "(reset! a 5)")?;
    assert!(yeti::expr_eq(&reset, &Expression::Integer(5)));
    let (_, value) = yeti::evaluate_source_with(&mut store, env, "@a")?;
    assert!(yeti::expr_eq(&value, &Expression::Integer(5)));
    Ok(())
}

#[test]
fn spawned_module_environment_is_a_snapshot() -> TestOutcome {
    let mut store = Store::new();
    let env = yeti::environment();
    let (env, _) = yeti::evaluate_source_with(&mut store, env, "(def x 41)")?;
    let (env, handle) = yeti::evaluate_source_with(&mut store, env, "(spawn (+ x 1))")?;
    let task = match handle {
        Expression::NativeType(id) => id,
        _ => panic!("spawn should hand back a task handle"),
    };
    yeti::drain_tasks(&mut store, &env, yeti::DEFAULT_FUEL)?;
    let observed = store.task_result(task).expect("the spawned sum should have completed");
    assert!(yeti::expr_eq(&observed, &Expression::Integer(42)));
    Ok(())
}

#[test]
fn namespaced_lookup_through_module() -> TestOutcome {
    let env = Environment::new();
    let inner = Environment::new().insert("greeting", &Expression::Integer(7));
    let env = env.insert("m", &Expression::Module(inner));
    let (_, value) = yeti::evaluate_source(env, "m/greeting")?;
    assert!(yeti::expr_eq(&value, &Expression::Integer(7)));
    Ok(())
}
