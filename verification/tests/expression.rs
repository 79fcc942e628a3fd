use std::collections::HashSet;

use domain_query::error::Error;
use domain_query::expression::{Context, Evaluated, Expression};
use domain_query::testproperty::Property;
use domain_query::value::{Datatype, Value};

#[test]
fn context_request() {
    let props = vec![Property::Str, Property::Bool];
    let context = Context::request(props.clone());

    let expected = props.iter().collect::<HashSet<_>>();
    let requested = context.requested();
    let actual = requested.iter().collect::<HashSet<_>>();
    assert_eq!(expected, actual);
}

#[test]
fn context_provide_known() {
    let mut context = Context::request(vec![Property::Str]);
    let res = context.provide(Property::Str, Value::Str("known".to_owned()));

    assert!(matches!(res, Ok(())));

    let provided = context.provided().into_iter().collect::<HashSet<_>>();
    assert!(provided.contains(&Property::Str));

    let expected = Value::Str("known".to_owned());
    assert_eq!(context.value(Property::Str), Some(&expected));
}

#[test]
fn context_provide_unknown() {
    let mut context = Context::request(vec![Property::Bool]);
    let res = context.provide(Property::Int, Value::Int(42));

    assert!(matches!(res, Ok(())));

    let provided = context.provided().into_iter().collect::<HashSet<_>>();
    assert!(!provided.contains(&Property::Int));
    assert!(matches!(context.value(Property::Int), None));
}

#[test]
fn context_provide_type_mismatch() {
    let mut context = Context::request(vec![Property::Bool]);
    let res = context.provide(Property::Bool, Value::Int(42));

    assert!(matches!(
        res,
        Err(Error::TypeMismatch(
            "Property::Bool",
            Datatype::Bool,
            Datatype::Int
        ))
    ));
}

#[test]
fn context_provide_update() {
    let mut context = Context::request(vec![Property::Str]);
    context
        .provide(Property::Str, Value::Str("initial".to_owned()))
        .unwrap();
    assert!(
        matches!(context.value(Property::Str), Some(Value::Str(x)) if x == "initial"),
        "{}",
        context.render()
    );

    context
        .provide(Property::Str, Value::Str("updated".to_owned()))
        .unwrap();
    assert!(
        matches!(context.value(Property::Str), Some(Value::Str(x)) if x == "updated"),
        "{}",
        context.render()
    );
}

#[test]
fn expression_variables() {
    let mut expr = Expression::<Property>::new();

    let a = expr.constant(true).unwrap();
    let b = expr.is(Property::Int, Value::Int(42)).unwrap();
    let c = expr
        .is_in(
            Property::Str,
            vec![
                Value::Str("a match".to_owned()),
                Value::Str("another match".to_owned()),
            ],
        )
        .unwrap();

    let a_and_b = expr.and(a, b).unwrap();
    let _root = expr.or(a_and_b, c);

    let requested = expr
        .variables()
        .requested()
        .iter()
        .map(|op| op.clone())
        .collect::<HashSet<_>>();
    let expected = vec![Property::Int, Property::Str]
        .into_iter()
        .collect::<HashSet<_>>();
    assert_eq!(requested, expected);
}

#[test]
fn expression_eval_success_no_variables() {
    let mut expr = Expression::<Property>::new();

    let a = expr.constant(true).unwrap();
    let b = expr.constant(false).unwrap();
    let aorb = expr.or(a, b).unwrap();
    let _ = expr.and(aorb, b);

    let result = expr.eval(&Context::empty());
    let evaluated = result.unwrap();

    assert!(
        matches!(evaluated, Evaluated::Fully(x, _) if x == false),
        "{:?}",
        evaluated
    );
}

#[test]
fn expression_eval_success_variables() {
    let mut expr = Expression::<Property>::new();

    let a = expr.is(Property::Bool, Value::Bool(true)).unwrap();
    let b = expr
        .is_in(Property::Int, vec![Value::Int(41), Value::Int(42)])
        .unwrap();

    let _ = expr.and(a, b).unwrap();
    let mut context = expr.variables();

    // #1: a is true, b is false
    context.provide(Property::Bool, Value::Bool(true)).unwrap();
    context.provide(Property::Int, Value::Int(99)).unwrap();

    let a_not_b = expr.eval(&context);
    assert!(matches!(a_not_b, Ok(Evaluated::Fully(x, _)) if x == false));

    // #2: a is false, b is true
    context.provide(Property::Bool, Value::Bool(false)).unwrap();
    context.provide(Property::Int, Value::Int(41)).unwrap();

    let b_not_a = expr.eval(&context);
    assert!(matches!(b_not_a, Ok(Evaluated::Fully(x, _)) if x == false));

    // #3: a is true, b is true
    context.provide(Property::Bool, Value::Bool(true)).unwrap();
    context.provide(Property::Int, Value::Int(42)).unwrap();

    let a_b = expr.eval(&context);
    assert!(
        matches!(a_b, Ok(Evaluated::Fully(x, _)) if x == true),
        "result: '{}', expression: '{}', context: '{}'",
        a_b.unwrap().render(),
        expr.render(),
        context.render()
    );
}
