use domain_query::condition::{In, Is};
use domain_query::error::Error;
use domain_query::testproperty::Property;
use domain_query::value::{Datatype, Value};

fn sample_values() -> Vec<Value> {
    vec![
        Value::Bool(true),
        Value::Bool(false),
        Value::Int(41),
        Value::Int(42),
        Value::Str("41".to_owned()),
        Value::Str(String::new()),
    ]
}

fn properties() -> Vec<Property> {
    vec![Property::Bool, Property::Int, Property::Str]
}

fn datatype_of(property: Property) -> Datatype {
    match property {
        Property::Bool => Datatype::Bool,
        Property::Int => Datatype::Int,
        Property::Str => Datatype::Str,
    }
}

fn name_of(property: Property) -> &'static str {
    match property {
        Property::Bool => "Property::Bool",
        Property::Int => "Property::Int",
        Property::Str => "Property::Str",
    }
}

#[test]
fn is_constructs_iff_datatypes_agree() {
    for property in properties() {
        for value in sample_values() {
            let given = value.datatype();
            match Is::new(property, value) {
                Ok(cond) => {
                    assert_eq!(datatype_of(property), given);
                    assert_eq!(cond.variable(), property);
                }
                Err(Error::TypeMismatch(name, declared, actual)) => {
                    assert_ne!(datatype_of(property), given);
                    assert_eq!(name, name_of(property));
                    assert_eq!(declared, datatype_of(property));
                    assert_eq!(actual, given);
                }
                Err(other) => panic!("unexpected error: {:?}", other),
            }
        }
    }
}

#[test]
fn in_constructs_iff_every_datatype_agrees() {
    for property in properties() {
        for value in sample_values() {
            let given = value.datatype();
            let values = vec![value.clone(), value];
            match In::new(property, values) {
                Ok(cond) => {
                    assert_eq!(datatype_of(property), given);
                    assert_eq!(cond.variable(), property);
                }
                Err(Error::TypeMismatch(name, declared, actual)) => {
                    assert_ne!(datatype_of(property), given);
                    assert_eq!(name, name_of(property));
                    assert_eq!(declared, datatype_of(property));
                    assert_eq!(actual, given);
                }
                Err(other) => panic!("unexpected error: {:?}", other),
            }
        }
    }
}

#[test]
fn in_reports_the_first_mismatch() {
    let values = vec![
        Value::Int(1),
        Value::Str("second".to_owned()),
        Value::Bool(true),
    ];
    let made = In::new(Property::Int, values);
    assert!(matches!(
        made,
        Err(Error::TypeMismatch("Property::Int", Datatype::Int, Datatype::Str))
    ));

    let values = vec![Value::Bool(true), Value::Str("second".to_owned())];
    let made = In::new(Property::Str, values);
    assert!(matches!(
        made,
        Err(Error::TypeMismatch("Property::Str", Datatype::Str, Datatype::Bool))
    ));
}

#[test]
fn in_accepts_an_empty_list() {
    let cond = In::new(Property::Bool, Vec::new()).unwrap();
    assert!(!cond.eval(&Value::Bool(true)).unwrap());
    assert!(!cond.eval(&Value::Bool(false)).unwrap());
    assert_eq!(cond.render(), "Property::Bool (Bool) in []");
}

#[test]
fn eval_rejects_other_datatypes_whatever_the_condition() {
    for property in properties() {
        let expected = match property {
            Property::Bool => Value::Bool(true),
            Property::Int => Value::Int(41),
            Property::Str => Value::Str("41".to_owned()),
        };
        let is = Is::new(property, expected.clone()).unwrap();
        let isin = In::new(property, vec![expected]).unwrap();
        for actual in sample_values() {
            let given = actual.datatype();
            if given == datatype_of(property) {
                assert!(is.eval(&actual).is_ok());
                assert!(isin.eval(&actual).is_ok());
            } else {
                match is.eval(&actual) {
                    Err(Error::TypeMismatch(name, declared, got)) => {
                        assert_eq!(name, name_of(property));
                        assert_eq!(declared, datatype_of(property));
                        assert_eq!(got, given);
                    }
                    other => panic!("unexpected result: {:?}", other),
                }
                match isin.eval(&actual) {
                    Err(Error::TypeMismatch(name, declared, got)) => {
                        assert_eq!(name, name_of(property));
                        assert_eq!(declared, datatype_of(property));
                        assert_eq!(got, given);
                    }
                    other => panic!("unexpected result: {:?}", other),
                }
            }
        }
    }
}

#[test]
fn is_holds_of_the_expected_value_only() {
    for expected in sample_values() {
        let property = match expected.datatype() {
            Datatype::Bool => Property::Bool,
            Datatype::Int => Property::Int,
            Datatype::Str => Property::Str,
        };
        let cond = Is::new(property, expected.clone()).unwrap();
        for actual in sample_values() {
            if actual.datatype() == expected.datatype() {
                assert_eq!(cond.eval(&actual).unwrap(), actual == expected);
            }
        }
    }
}

#[test]
fn in_holds_of_the_members_only() {
    let members = vec![Value::Int(41), Value::Int(42), Value::Int(41), Value::Int(-5)];
    let cond = In::new(Property::Int, members.clone()).unwrap();
    for candidate in -10..50 {
        let actual = Value::Int(candidate);
        assert_eq!(cond.eval(&actual).unwrap(), members.contains(&actual));
    }

    let words = vec![Value::Str("is".to_owned()), Value::Str("in".to_owned())];
    let cond = In::new(Property::Str, words).unwrap();
    assert!(cond.eval(&Value::Str("in".to_owned())).unwrap());
    assert!(cond.eval(&Value::Str("is".to_owned())).unwrap());
    assert!(!cond.eval(&Value::Str("In".to_owned())).unwrap());
    assert!(!cond.eval(&Value::Str(String::new())).unwrap());
}

#[test]
fn conditions_render_name_datatype_and_values() {
    let is = Is::new(Property::Int, Value::Int(42)).unwrap();
    assert_eq!(is.render(), "Property::Int (Int) == 42");
    let is = Is::new(Property::Str, Value::Str("a match".to_owned())).unwrap();
    assert_eq!(is.render(), "Property::Str (Str) == a match");
    let is = Is::new(Property::Bool, Value::Bool(false)).unwrap();
    assert_eq!(is.render(), "Property::Bool (Bool) == false");

    let isin = In::new(Property::Int, vec![Value::Int(41), Value::Int(42)]).unwrap();
    assert_eq!(isin.render(), "Property::Int (Int) in [41, 42, ]");
}

#[test]
fn in_keeps_each_value_once_in_first_order() {
    let values = vec![
        Value::Int(42),
        Value::Int(41),
        Value::Int(42),
        Value::Int(41),
        Value::Int(7),
        Value::Int(42),
    ];
    let isin = In::new(Property::Int, values).unwrap();
    assert_eq!(isin.render(), "Property::Int (Int) in [42, 41, 7, ]");
}

#[test]
fn conditions_clone_to_equal_conditions() {
    let is = Is::new(Property::Int, Value::Int(42)).unwrap();
    let copy = is.clone();
    assert_eq!(copy.variable(), Property::Int);
    assert_eq!(copy.render(), is.render());
    assert!(copy.eval(&Value::Int(42)).unwrap());

    let isin = In::new(Property::Str, vec![Value::Str("x".to_owned())]).unwrap();
    let copy = isin.clone();
    assert_eq!(copy.variable(), Property::Str);
    assert_eq!(copy.render(), isin.render());
    assert!(copy.eval(&Value::Str("x".to_owned())).unwrap());
}
