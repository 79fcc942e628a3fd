use domain_query::condition::{In, Is};
use domain_query::error;
use domain_query::testproperty::Property;
use domain_query::value;
use domain_query::value::Value;

#[test]
fn is_positive() {
    let is = Is::<Property>::new(Property::Int, Value::Int(42)).unwrap();
    assert!(is.eval(&Value::Int(42)).unwrap());
}

#[test]
fn is_negative() {
    let is = Is::<Property>::new(Property::Int, Value::Int(42)).unwrap();
    assert!(!is.eval(&Value::Int(24)).unwrap());
}

#[test]
fn is_mismatch_new() {
    let is = Is::<Property>::new(Property::Int, Value::Bool(false));
    assert!(is.is_err());
    assert!(matches!(
        is.unwrap_err(),
        error::Error::TypeMismatch("Property::Int", value::Datatype::Int, value::Datatype::Bool)
    ));
}

#[test]
fn is_mismatch_eval() {
    let is = Is::<Property>::new(Property::Int, Value::Int(42)).unwrap();
    let result = is.eval(&Value::Str("hello".to_string()));
    assert!(result.is_err());
    assert!(matches!(
        result.unwrap_err(),
        error::Error::TypeMismatch("Property::Int", value::Datatype::Int, value::Datatype::Str)
    ));
}

#[test]
fn in_positive() {
    let values = vec![Value::Int(41), Value::Int(42)];
    let isin = In::<Property>::new(Property::Int, values.into_iter().collect()).unwrap();
    assert!(isin.eval(&Value::Int(42)).unwrap());
}

#[test]
fn in_negative() {
    let values = vec![Value::Int(41), Value::Int(21)];
    let isin = In::<Property>::new(Property::Int, values.into_iter().collect()).unwrap();
    assert!(!isin.eval(&Value::Int(24)).unwrap());
}

#[test]
fn in_mismatch_new() {
    let values = vec![Value::Int(42), Value::Str("in".to_owned())];
    let isin = In::<Property>::new(Property::Int, values.into_iter().collect());

    assert!(isin.is_err());
    assert!(matches!(
        isin.unwrap_err(),
        error::Error::TypeMismatch("Property::Int", value::Datatype::Int, value::Datatype::Str)
    ));
}

#[test]
fn in_mismatch_eval() {
    let values = vec![Value::Str("is".to_owned()), Value::Str("in".to_owned())];
    let isin = In::<Property>::new(Property::Str, values.into_iter().collect()).unwrap();

    let result = isin.eval(&Value::Bool(true));
    assert!(result.is_err());
    assert!(matches!(
        result.unwrap_err(),
        error::Error::TypeMismatch("Property::Str", value::Datatype::Str, value::Datatype::Bool)
    ));
}
