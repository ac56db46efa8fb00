use treewalk::env::Env;
use treewalk::error::RuntimeError;
use treewalk::value::{negated, numbers_at_most, numbers_equal, numbers_less, Value};

fn samples() -> Vec<f64> {
    vec![
        0.0,
        -0.0,
        1.0,
        -1.0,
        0.1,
        -0.1,
        3.5,
        1e300,
        -1e300,
        5e-324,
        -5e-324,
        f64::MAX,
        f64::MIN,
        f64::INFINITY,
        f64::NEG_INFINITY,
        f64::NAN,
        -f64::NAN,
        f64::MIN_POSITIVE,
    ]
}

#[test]
fn numbers_are_ordered_as_doubles_are() {
    for a in samples() {
        for b in samples() {
            assert_eq!(numbers_less(a.to_bits(), b.to_bits()), a < b, "{a} < {b}");
            assert_eq!(numbers_at_most(a.to_bits(), b.to_bits()), a <= b, "{a} <= {b}");
            assert_eq!(numbers_equal(a.to_bits(), b.to_bits()), a == b, "{a} == {b}");
        }
    }
}

#[test]
fn negation_flips_the_sign() {
    for a in samples() {
        assert_eq!(negated(a.to_bits()), (-a).to_bits());
    }
    assert_eq!(negated(2.5f64.to_bits()), (-2.5f64).to_bits());
}

#[test]
fn equality_of_values() {
    let zero = Value::Number(0f64.to_bits());
    let one = Value::Number(1f64.to_bits());
    assert!(!zero.equals(&Value::Boolean(false)));
    assert!(!Value::String("1".to_string()).equals(&one));
    assert!(Value::Nil.equals(&Value::Nil));
    assert!(!Value::Nil.equals(&Value::Boolean(false)));
    assert!(!Value::String(String::new()).equals(&Value::Nil));
    assert!(one.equals(&Value::Number(1f64.to_bits())));
    assert!(!one.equals(&zero));
    assert!(zero.equals(&Value::Number((-0f64).to_bits())));
    let nan = Value::Number(f64::NAN.to_bits());
    assert!(!nan.equals(&nan));
    assert!(Value::String("ab".to_string()).equals(&Value::String("ab".to_string())));
    assert!(!Value::String("ab".to_string()).equals(&Value::String("abc".to_string())));
    assert!(Value::Boolean(true).equals(&Value::Boolean(true)));
    assert!(!Value::Boolean(true).equals(&Value::Boolean(false)));
}

#[test]
fn truthiness_of_values() {
    assert!(!Value::Nil.is_truthy());
    assert!(!Value::Boolean(false).is_truthy());
    assert!(Value::Boolean(true).is_truthy());
    assert!(Value::Number(0f64.to_bits()).is_truthy());
    assert!(Value::Number(f64::NAN.to_bits()).is_truthy());
    assert!(Value::String(String::new()).is_truthy());
}

#[test]
fn text_of_values() {
    assert_eq!(Value::Nil.text(), Some("nil".to_string()));
    assert_eq!(Value::Boolean(true).text(), Some("true".to_string()));
    assert_eq!(Value::Boolean(false).text(), Some("false".to_string()));
    assert_eq!(Value::String("a b".to_string()).text(), Some("a b".to_string()));
    assert_eq!(Value::Number(1f64.to_bits()).text(), None);
}

#[test]
fn duplicate_of_a_value_is_equal() {
    for value in [Value::Nil, Value::Boolean(true), Value::Number(7), Value::String("s".to_string())] {
        assert_eq!(value.duplicate(), value);
    }
}

fn number(n: f64) -> Value {
    Value::Number(n.to_bits())
}

#[test]
fn lookup_takes_the_innermost_binding() {
    let mut env = Env::new();
    env.define("a".to_string(), number(1.0));
    env.define("b".to_string(), number(2.0));
    env.enter_scope();
    env.define("a".to_string(), number(3.0));
    assert_eq!(env.get("a"), Ok(number(3.0)));
    assert_eq!(env.get("b"), Ok(number(2.0)));
    env.exit_scope();
    assert_eq!(env.get("a"), Ok(number(1.0)));
    assert_eq!(env.depth(), 1);
}

#[test]
fn unbound_names() {
    let mut env = Env::new();
    assert_eq!(env.get("a"), Err(RuntimeError::UndefinedVariable("a".to_string())));
    assert_eq!(
        env.assign("a", Value::Nil),
        Err(RuntimeError::UndefinedVariable("a".to_string()))
    );
    assert_eq!(env.get("a"), Err(RuntimeError::UndefinedVariable("a".to_string())));
    assert_eq!(
        RuntimeError::UndefinedVariable("a".to_string()).message(),
        Some("Undefined variable 'a'.".to_string())
    );
}

#[test]
fn define_rebinds_in_the_current_scope() {
    let mut env = Env::new();
    env.define("a".to_string(), number(1.0));
    env.define("a".to_string(), Value::String("again".to_string()));
    assert_eq!(env.get("a"), Ok(Value::String("again".to_string())));
}

#[test]
fn assignment_reaches_the_scope_that_binds_the_name() {
    let mut env = Env::new();
    env.define("a".to_string(), number(1.0));
    env.enter_scope();
    env.define("b".to_string(), number(2.0));
    env.enter_scope();
    assert_eq!(env.depth(), 3);
    assert_eq!(env.assign("a", number(10.0)), Ok(()));
    assert_eq!(env.assign("b", number(20.0)), Ok(()));
    assert_eq!(env.get("a"), Ok(number(10.0)));
    env.exit_scope();
    assert_eq!(env.get("b"), Ok(number(20.0)));
    env.exit_scope();
    assert_eq!(env.get("a"), Ok(number(10.0)));
    assert_eq!(env.get("b"), Err(RuntimeError::UndefinedVariable("b".to_string())));
}

#[test]
fn assignment_changes_the_innermost_of_two_bindings() {
    let mut env = Env::new();
    env.define("a".to_string(), number(1.0));
    env.enter_scope();
    env.define("a".to_string(), number(2.0));
    assert_eq!(env.assign("a", number(3.0)), Ok(()));
    assert_eq!(env.get("a"), Ok(number(3.0)));
    env.exit_scope();
    assert_eq!(env.get("a"), Ok(number(1.0)));
}

#[test]
fn a_block_leaves_the_outer_names_as_they_were() {
    let mut env = Env::new();
    env.define("kept".to_string(), Value::Nil);
    env.enter_scope();
    env.define("fresh".to_string(), Value::Nil);
    env.define("kept".to_string(), Value::Boolean(true));
    env.exit_scope();
    assert_eq!(env.get("kept"), Ok(Value::Nil));
    assert_eq!(env.get("fresh"), Err(RuntimeError::UndefinedVariable("fresh".to_string())));
}

#[test]
fn messages_of_errors() {
    assert_eq!(
        RuntimeError::OperandMustBeNumber.message(),
        Some("Operand must be a number.".to_string())
    );
    assert_eq!(
        RuntimeError::OperandsMustMatch.message(),
        Some("Operands must be two numbers or two strings.".to_string())
    );
    assert_eq!(RuntimeError::OperandMustBeNumber.failure().exit_code(), 70);
    assert_eq!(RuntimeError::UndefinedVariable("x".to_string()).failure().exit_code(), 70);
    assert_eq!(
        RuntimeError::UndefinedVariable("x".to_string()).duplicate(),
        RuntimeError::UndefinedVariable("x".to_string())
    );
}
