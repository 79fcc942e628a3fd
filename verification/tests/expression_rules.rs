use domain_query::error::Error;
use domain_query::expression::{Context, Evaluated, Expression, Operation};
use domain_query::testproperty::Property;
use domain_query::value::{Datatype, Value};

fn constants_of(log: &Vec<(Operation<Property>, usize)>) -> Vec<(Option<bool>, usize)> {
    log.iter()
        .map(|node| match node.0 {
            Operation::Const(value) => (Some(value), node.1),
            _ => (None, node.1),
        })
        .collect()
}

fn scenario() -> Expression<Property> {
    let mut expr = Expression::<Property>::new();
    let a = expr.is(Property::Bool, Value::Bool(true)).unwrap();
    let b = expr
        .is_in(Property::Int, vec![Value::Int(41), Value::Int(42)])
        .unwrap();
    let root = expr.and(a, b).unwrap();
    assert_eq!((a, b, root), (0, 1, 2));
    expr
}

#[test]
fn builder_returns_successive_indices() {
    let mut expr = Expression::<Property>::new();
    assert_eq!(expr.len(), 0);
    assert_eq!(expr.constant(true).unwrap(), 0);
    assert_eq!(expr.is(Property::Int, Value::Int(1)).unwrap(), 1);
    assert_eq!(expr.is_in(Property::Str, Vec::new()).unwrap(), 2);
    assert_eq!(expr.not(0).unwrap(), 3);
    assert_eq!(expr.or(1, 2).unwrap(), 4);
    assert_eq!(expr.and(3, 4).unwrap(), 5);
    assert_eq!(expr.len(), 6);
    assert_eq!(Expression::<Property>::default().len(), 0);
}

#[test]
fn builder_accepts_every_index_below_the_count() {
    for count in 1..5usize {
        for lhs in 0..count {
            for rhs in 0..count {
                let mut expr = Expression::<Property>::new();
                for _ in 0..count {
                    expr.constant(true).unwrap();
                }
                assert_eq!(expr.not(lhs).unwrap(), count);
                assert_eq!(expr.or(lhs, rhs).unwrap(), count + 1);
                assert_eq!(expr.and(lhs, rhs).unwrap(), count + 2);
                assert_eq!(expr.len(), count + 3);
            }
        }
    }
}

#[test]
fn builder_rejects_every_index_from_the_count_on() {
    let mut expr = Expression::<Property>::new();
    expr.constant(true).unwrap();
    expr.constant(false).unwrap();
    for opref in vec![2usize, 3, 100, usize::MAX] {
        match expr.not(opref) {
            Err(Error::ExpressionOutOfBounds(at, last, shown)) => {
                assert_eq!((at, last), (opref, 1));
                assert_eq!(shown, "false");
            }
            other => panic!("unexpected result: {:?}", other),
        }
        match expr.or(opref, 0) {
            Err(Error::ExpressionOutOfBounds(at, last, _)) => assert_eq!((at, last), (opref, 1)),
            other => panic!("unexpected result: {:?}", other),
        }
        match expr.and(1, opref) {
            Err(Error::ExpressionOutOfBounds(at, last, _)) => assert_eq!((at, last), (opref, 1)),
            other => panic!("unexpected result: {:?}", other),
        }
        assert_eq!(expr.len(), 2);
    }
}

#[test]
fn builder_reports_the_left_operand_first() {
    let mut expr = Expression::<Property>::new();
    expr.constant(true).unwrap();
    assert!(matches!(
        expr.or(5, 9),
        Err(Error::ExpressionOutOfBounds(5, 0, _))
    ));
    assert!(matches!(
        expr.and(5, 9),
        Err(Error::ExpressionOutOfBounds(5, 0, _))
    ));
    assert!(matches!(
        expr.or(0, 9),
        Err(Error::ExpressionOutOfBounds(9, 0, _))
    ));
    assert!(matches!(
        expr.and(0, 9),
        Err(Error::ExpressionOutOfBounds(9, 0, _))
    ));
    assert_eq!(expr.len(), 1);
}

#[test]
fn builder_on_empty_expression_is_out_of_bounds() {
    let mut expr = Expression::<Property>::new();
    match expr.not(3) {
        Err(Error::ExpressionOutOfBounds(at, last, shown)) => {
            assert_eq!((at, last), (3, 0));
            assert_eq!(shown, "<badref: 0/0>");
        }
        other => panic!("unexpected result: {:?}", other),
    }
    assert!(matches!(
        expr.and(0, 0),
        Err(Error::ExpressionOutOfBounds(0, 0, _))
    ));
    assert_eq!(expr.len(), 0);
}

#[test]
fn builder_condition_mismatch_appends_nothing() {
    let mut expr = Expression::<Property>::new();
    expr.constant(true).unwrap();
    assert!(matches!(
        expr.is(Property::Int, Value::Bool(true)),
        Err(Error::TypeMismatch("Property::Int", Datatype::Int, Datatype::Bool))
    ));
    assert!(matches!(
        expr.is_in(Property::Str, vec![Value::Str("ok".to_owned()), Value::Int(3)]),
        Err(Error::TypeMismatch("Property::Str", Datatype::Str, Datatype::Int))
    ));
    assert_eq!(expr.len(), 1);
}

#[test]
fn display_renders_operator_tree() {
    let mut expr = Expression::<Property>::new();
    assert_eq!(expr.display(None), "<badref: 0/0>");
    assert_eq!(expr.render(), "<badref: 0/0>");

    let a = expr.constant(true).unwrap();
    let b = expr.is(Property::Int, Value::Int(42)).unwrap();
    let c = expr
        .is_in(Property::Str, vec![Value::Str("x".to_owned()), Value::Str("y".to_owned())])
        .unwrap();
    let a_and_b = expr.and(a, b).unwrap();
    let not_c = expr.not(c).unwrap();
    let root = expr.or(a_and_b, not_c).unwrap();

    assert_eq!(expr.display(Some(a)), "true");
    assert_eq!(expr.display(Some(b)), "Property::Int (Int) == 42");
    assert_eq!(expr.display(Some(c)), "Property::Str (Str) in [x, y, ]");
    assert_eq!(expr.display(Some(a_and_b)), "(true && Property::Int (Int) == 42)");
    assert_eq!(expr.display(Some(not_c)), "!(Property::Str (Str) in [x, y, ])");
    assert_eq!(
        expr.display(Some(root)),
        "((true && Property::Int (Int) == 42) || !(Property::Str (Str) in [x, y, ]))"
    );
    assert_eq!(expr.display(None), expr.display(Some(root)));
    assert_eq!(expr.render(), expr.display(None));
    assert_eq!(expr.display(Some(6)), "<badref: 6/5>");
    assert_eq!(expr.display(Some(1234)), "<badref: 1234/5>");
}

#[test]
fn eval_of_empty_expression_is_noop() {
    let expr = Expression::<Property>::new();
    assert!(matches!(
        expr.eval(&Context::empty()),
        Err(Error::ExpressionNoop)
    ));
}

#[test]
fn eval_names_the_disconnected_node() {
    let mut expr = Expression::<Property>::new();
    let _unused = expr.constant(true).unwrap();
    let used = expr.constant(false).unwrap();
    let _root = expr.not(used).unwrap();
    match expr.eval(&Context::empty()) {
        Err(Error::ExpressionDisconnected(at, shown, root)) => {
            assert_eq!(at, 0);
            assert_eq!(shown, "true");
            assert_eq!(root, "!(false)");
        }
        other => panic!("unexpected result: {:?}", other),
    }
}

#[test]
fn eval_names_the_first_of_several_disconnected_nodes() {
    let mut expr = Expression::<Property>::new();
    let a = expr.constant(true).unwrap();
    let _b = expr.is(Property::Int, Value::Int(1)).unwrap();
    let _c = expr.constant(false).unwrap();
    let _root = expr.not(a).unwrap();
    match expr.eval(&Context::empty()) {
        Err(Error::ExpressionDisconnected(at, shown, root)) => {
            assert_eq!(at, 1);
            assert_eq!(shown, "Property::Int (Int) == 1");
            assert_eq!(root, "!(true)");
        }
        other => panic!("unexpected result: {:?}", other),
    }
}

#[test]
fn eval_accepts_an_unreferenced_root_only() {
    let mut expr = Expression::<Property>::new();
    expr.constant(true).unwrap();
    match expr.eval(&Context::empty()) {
        Ok(Evaluated::Fully(value, log)) => {
            assert!(value);
            assert_eq!(constants_of(&log), vec![(Some(true), 0)]);
        }
        other => panic!("unexpected result: {:?}", other),
    }
}

#[test]
fn eval_single_reports_future_references() {
    let mut expr = Expression::<Property>::new();
    expr.constant(true).unwrap();
    let context = Context::empty();
    let none: Vec<(Operation<Property>, usize)> = Vec::new();
    let one: Vec<(Operation<Property>, usize)> = vec![(Operation::Const(true), 0)];

    match expr.eval_single(0, &Operation::Not(3), &none, &context) {
        Err(Error::ExpressionFutureReference(at, node, shown)) => {
            assert_eq!((at, node), (3, 0));
            assert_eq!(shown, "true");
        }
        other => panic!("unexpected result: {:?}", other),
    }
    assert!(matches!(
        expr.eval_single(4, &Operation::Or(0, 5), &one, &context),
        Err(Error::ExpressionFutureReference(5, 4, _))
    ));
    assert!(matches!(
        expr.eval_single(4, &Operation::And(7, 5), &one, &context),
        Err(Error::ExpressionFutureReference(7, 4, _))
    ));
    assert!(matches!(
        expr.eval_single(1, &Operation::Not(1), &one, &context),
        Err(Error::ExpressionFutureReference(1, 1, _))
    ));
}

#[test]
fn eval_single_folds_over_constants_only() {
    let expr = Expression::<Property>::new();
    let mut context = Context::request(vec![Property::Int]);
    let results: Vec<(Operation<Property>, usize)> = vec![
        (Operation::Const(true), 1),
        (Operation::Const(false), 1),
        (Operation::Is(domain_query::condition::Is::new(Property::Int, Value::Int(1)).unwrap()), 1),
    ];

    assert!(matches!(expr.eval_single(3, &Operation::Const(true), &results, &context), Ok(None)));
    assert!(matches!(expr.eval_single(3, &Operation::Not(0), &results, &context), Ok(Some(false))));
    assert!(matches!(expr.eval_single(3, &Operation::Not(1), &results, &context), Ok(Some(true))));
    assert!(matches!(expr.eval_single(3, &Operation::Not(2), &results, &context), Ok(None)));
    assert!(matches!(expr.eval_single(3, &Operation::Or(0, 1), &results, &context), Ok(Some(true))));
    assert!(matches!(expr.eval_single(3, &Operation::Or(1, 1), &results, &context), Ok(Some(false))));
    assert!(matches!(expr.eval_single(3, &Operation::And(0, 1), &results, &context), Ok(Some(false))));
    assert!(matches!(expr.eval_single(3, &Operation::And(0, 0), &results, &context), Ok(Some(true))));
    assert!(matches!(expr.eval_single(3, &Operation::Or(0, 2), &results, &context), Ok(None)));
    assert!(matches!(expr.eval_single(3, &Operation::And(1, 2), &results, &context), Ok(None)));

    let cond = domain_query::condition::Is::new(Property::Int, Value::Int(1)).unwrap();
    let op = Operation::Is(cond);
    assert!(matches!(expr.eval_single(3, &op, &results, &context), Ok(None)));
    context.provide(Property::Int, Value::Int(1)).unwrap();
    assert!(matches!(expr.eval_single(3, &op, &results, &context), Ok(Some(true))));
    context.provide(Property::Int, Value::Int(2)).unwrap();
    assert!(matches!(expr.eval_single(3, &op, &results, &context), Ok(Some(false))));
}

#[test]
fn closed_expressions_follow_the_truth_tables() {
    for a in vec![false, true] {
        for b in vec![false, true] {
            let mut expr = Expression::<Property>::new();
            let x = expr.constant(a).unwrap();
            let y = expr.constant(b).unwrap();
            let or = expr.or(x, y).unwrap();
            let and = expr.and(x, y).unwrap();
            let not = expr.not(or).unwrap();
            let _root = expr.or(not, and).unwrap();
            let expected = !(a || b) || (a && b);

            match expr.eval(&Context::empty()) {
                Ok(Evaluated::Fully(value, log)) => {
                    assert_eq!(value, expected);
                    assert_eq!(
                        constants_of(&log),
                        vec![
                            (Some(a), 2),
                            (Some(b), 2),
                            (Some(a || b), 1),
                            (Some(a && b), 1),
                            (Some(!(a || b)), 1),
                            (Some(expected), 0),
                        ]
                    );
                }
                other => panic!("unexpected result: {:?}", other),
            }

            let mut context = Context::request(vec![Property::Int]);
            context.provide(Property::Int, Value::Int(3)).unwrap();
            assert!(matches!(expr.eval(&context), Ok(Evaluated::Fully(v, _)) if v == expected));
        }
    }
}

#[test]
fn counts_grow_by_one_for_each_operand() {
    let mut expr = Expression::<Property>::new();
    let a = expr.constant(true).unwrap();
    let _root = expr.and(a, a).unwrap();
    match expr.eval(&Context::empty()) {
        Ok(Evaluated::Fully(value, log)) => {
            assert!(value);
            assert_eq!(constants_of(&log), vec![(Some(true), 2), (Some(true), 0)]);
        }
        other => panic!("unexpected result: {:?}", other),
    }
}

#[test]
fn unknown_values_leave_the_expression_as_it_was() {
    let expr = scenario();
    let context = Context::<Property>::empty();
    match expr.eval(&context) {
        Ok(Evaluated::Partially(rest)) => {
            assert_eq!(rest.len(), expr.len());
            for at in 0..expr.len() {
                assert_eq!(rest.display(Some(at)), expr.display(Some(at)));
            }
        }
        other => panic!("unexpected result: {:?}", other),
    }
    match expr.eval(&expr.variables()) {
        Ok(Evaluated::Partially(rest)) => assert_eq!(rest.render(), expr.render()),
        other => panic!("unexpected result: {:?}", other),
    }
}

#[test]
fn connectives_over_constants_fold_without_values() {
    let mut expr = Expression::<Property>::new();
    let t = expr.constant(true).unwrap();
    let not_t = expr.not(t).unwrap();
    let x = expr.is(Property::Int, Value::Int(1)).unwrap();
    let _root = expr.and(not_t, x).unwrap();
    match expr.eval(&Context::empty()) {
        Ok(Evaluated::Partially(rest)) => {
            assert_eq!(rest.display(Some(0)), "true");
            assert_eq!(rest.display(Some(1)), "false");
            assert_eq!(rest.display(Some(2)), "Property::Int (Int) == 1");
            assert_eq!(rest.render(), "(false && Property::Int (Int) == 1)");
        }
        other => panic!("unexpected result: {:?}", other),
    }
}

#[test]
fn one_known_operand_never_decides() {
    let mut expr = Expression::<Property>::new();
    let t = expr.constant(true).unwrap();
    let f = expr.constant(false).unwrap();
    let x = expr.is(Property::Int, Value::Int(1)).unwrap();
    let or = expr.or(t, x).unwrap();
    let and = expr.and(f, x).unwrap();
    let _root = expr.or(or, and).unwrap();
    match expr.eval(&expr.variables()) {
        Ok(Evaluated::Partially(rest)) => {
            assert_eq!(rest.display(Some(or)), "(true || Property::Int (Int) == 1)");
            assert_eq!(rest.display(Some(and)), "(false && Property::Int (Int) == 1)");
        }
        other => panic!("unexpected result: {:?}", other),
    }
}

#[test]
fn all_values_known_gives_the_formula_value() {
    let mut expr = Expression::<Property>::new();
    let a = expr.is(Property::Bool, Value::Bool(true)).unwrap();
    let b = expr
        .is_in(Property::Int, vec![Value::Int(41), Value::Int(42)])
        .unwrap();
    let c = expr.is(Property::Str, Value::Str("yes".to_owned())).unwrap();
    let not_a = expr.not(a).unwrap();
    let b_and_c = expr.and(b, c).unwrap();
    let _root = expr.or(not_a, b_and_c).unwrap();

    for flag in vec![false, true] {
        for number in vec![40i64, 41, 42, 43] {
            for word in vec!["yes", "no"] {
                let mut context = expr.variables();
                context.provide(Property::Bool, Value::Bool(flag)).unwrap();
                context.provide(Property::Int, Value::Int(number)).unwrap();
                context
                    .provide(Property::Str, Value::Str(word.to_owned()))
                    .unwrap();
                let expected = !(flag == true) || ((number == 41 || number == 42) && word == "yes");
                match expr.eval(&context) {
                    Ok(Evaluated::Fully(value, log)) => {
                        assert_eq!(value, expected);
                        assert!(constants_of(&log).iter().all(|node| node.0.is_some()));
                    }
                    other => panic!("unexpected result: {:?}", other),
                }
            }
        }
    }
}

#[test]
fn end_to_end_scenario() {
    let expr = scenario();
    let cases = vec![(true, 99i64, false), (false, 41, false), (true, 42, true)];
    for (flag, number, expected) in cases {
        let mut context = expr.variables();
        context.provide(Property::Bool, Value::Bool(flag)).unwrap();
        context.provide(Property::Int, Value::Int(number)).unwrap();
        assert!(matches!(expr.eval(&context), Ok(Evaluated::Fully(v, _)) if v == expected));
    }
}

#[test]
fn residual_round_trip() {
    let expr = scenario();
    let mut context = expr.variables();
    context.provide(Property::Bool, Value::Bool(true)).unwrap();

    let rest = match expr.eval(&context) {
        Ok(Evaluated::Partially(rest)) => rest,
        other => panic!("unexpected result: {:?}", other),
    };
    assert_eq!(rest.len(), 3);
    assert_eq!(rest.display(Some(0)), "true");
    assert_eq!(rest.display(Some(1)), "Property::Int (Int) in [41, 42, ]");
    assert_eq!(rest.render(), "(true && Property::Int (Int) in [41, 42, ])");
    assert_eq!(
        expr.render(),
        "(Property::Bool (Bool) == true && Property::Int (Int) in [41, 42, ])"
    );

    context.provide(Property::Int, Value::Int(42)).unwrap();
    match rest.eval(&context) {
        Ok(Evaluated::Fully(value, log)) => {
            assert!(value);
            assert_eq!(
                constants_of(&log),
                vec![(Some(true), 1), (Some(true), 1), (Some(true), 0)]
            );
        }
        other => panic!("unexpected result: {:?}", other),
    }
    assert!(matches!(expr.eval(&context), Ok(Evaluated::Fully(true, _))));
}

#[test]
fn residual_agrees_with_the_expression_under_more_values() {
    let mut expr = Expression::<Property>::new();
    let a = expr.is(Property::Bool, Value::Bool(false)).unwrap();
    let b = expr.is(Property::Int, Value::Int(5)).unwrap();
    let c = expr.is(Property::Str, Value::Str("c".to_owned())).unwrap();
    let a_or_b = expr.or(a, b).unwrap();
    let not_c = expr.not(c).unwrap();
    let _root = expr.and(a_or_b, not_c).unwrap();

    for flag in vec![false, true] {
        for number in vec![5i64, 6] {
            for word in vec!["c", "d"] {
                let mut context = expr.variables();
                context.provide(Property::Int, Value::Int(number)).unwrap();
                let first = match expr.eval(&context) {
                    Ok(Evaluated::Partially(rest)) => rest,
                    other => panic!("unexpected result: {:?}", other),
                };
                context.provide(Property::Bool, Value::Bool(flag)).unwrap();
                let second = match first.eval(&context) {
                    Ok(Evaluated::Partially(rest)) => rest,
                    other => panic!("unexpected result: {:?}", other),
                };
                match (expr.eval(&context), first.eval(&context)) {
                    (Ok(Evaluated::Partially(direct)), Ok(Evaluated::Partially(resumed))) => {
                        assert_eq!(direct.render(), resumed.render());
                    }
                    other => panic!("unexpected result: {:?}", other),
                }
                context
                    .provide(Property::Str, Value::Str(word.to_owned()))
                    .unwrap();
                let expected = (flag == false || number == 5) && !(word == "c");
                for expression in vec![&expr, &first, &second] {
                    match expression.eval(&context) {
                        Ok(Evaluated::Fully(value, log)) => {
                            assert_eq!(value, expected);
                            assert_eq!(log.len(), 6);
                        }
                        other => panic!("unexpected result: {:?}", other),
                    }
                }
            }
        }
    }
}

#[test]
fn eval_leaves_the_expression_unchanged() {
    let expr = scenario();
    let before = expr.render();
    let mut context = expr.variables();
    context.provide(Property::Bool, Value::Bool(true)).unwrap();
    context.provide(Property::Int, Value::Int(42)).unwrap();
    let _ = expr.eval(&context);
    let _ = expr.eval(&Context::empty());
    assert_eq!(expr.render(), before);
    assert_eq!(expr.len(), 3);
}

#[test]
fn variables_lists_each_tested_property_once() {
    let mut expr = Expression::<Property>::new();
    assert!(expr.variables().requested().is_empty());
    expr.constant(true).unwrap();
    expr.is(Property::Str, Value::Str("s".to_owned())).unwrap();
    expr.is_in(Property::Int, vec![Value::Int(1)]).unwrap();
    expr.is(Property::Str, Value::Str("t".to_owned())).unwrap();
    expr.is(Property::Int, Value::Int(2)).unwrap();
    let context = expr.variables();
    assert_eq!(context.requested(), vec![Property::Str, Property::Int]);
    assert!(context.provided().is_empty());
}

#[test]
fn evaluated_render_shows_value_and_log() {
    let mut expr = Expression::<Property>::new();
    let a = expr.constant(true).unwrap();
    let b = expr.constant(false).unwrap();
    let aorb = expr.or(a, b).unwrap();
    let _ = expr.and(aorb, b).unwrap();
    let evaluated = expr.eval(&Context::empty()).unwrap();
    assert_eq!(
        evaluated.render(),
        "Fully evaluated to 'false', log: [0: true, 1: false, 2: true, 3: false, ]"
    );

    let partially = scenario().eval(&Context::empty()).unwrap();
    assert_eq!(
        partially.render(),
        "Partially evaluated, expression: (Property::Bool (Bool) == true && Property::Int (Int) in [41, 42, ])"
    );

    let log: Vec<(Operation<Property>, usize)> =
        vec![(Operation::Const(true), 1), (Operation::Not(0), 0)];
    assert_eq!(
        Evaluated::Fully(true, log).render(),
        "Fully evaluated to 'true', log: [0: true, <unevaluated>]"
    );
}

#[test]
fn operation_clone_keeps_the_node() {
    let cond = domain_query::condition::In::new(Property::Int, vec![Value::Int(1)]).unwrap();
    let ops: Vec<Operation<Property>> = vec![
        Operation::Const(true),
        Operation::In(cond),
        Operation::Not(4),
        Operation::Or(1, 2),
        Operation::And(3, 0),
    ];
    for op in ops.iter() {
        let copy = op.clone();
        assert_eq!(format!("{:?}", copy), format!("{:?}", op));
    }
}
