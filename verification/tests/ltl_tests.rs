use bombadil::ltl::{
    stop_default, EvalError, Evaluator, Formula, Residual, StopDefault, Syntax, ThunkRef,
    ThunkTable, Value,
};
use bombadil::monitor::{Property, PropertyState, PropertyValue, Verifier};

fn thunk(id: u64) -> ThunkRef {
    ThunkRef {
        id,
        pretty: format!("thunk-{}", id),
    }
}

fn pure(value: bool) -> Box<Syntax> {
    Box::new(Syntax::Pure {
        value,
        pretty: format!("{}", value),
    })
}

fn pure_formula(value: bool) -> Formula {
    Formula::Pure {
        value,
        pretty: format!("{}", value),
    }
}

fn empty_evaluator() -> Evaluator {
    Evaluator::new(ThunkTable::new())
}

#[test]
fn test_nnf_pushes_negation_through_conjunction() {
    let syntax = Syntax::Not(Box::new(Syntax::And(pure(true), pure(false))));
    match syntax.nnf() {
        Formula::Or(l, r) => {
            assert!(matches!(*l, Formula::Pure { value: false, .. }));
            assert!(matches!(*r, Formula::Pure { value: true, .. }));
        }
        other => panic!("expected a disjunction, got {:?}", other),
    }
}

#[test]
fn test_nnf_double_negation_cancels() {
    let syntax = Syntax::Not(Box::new(Syntax::Not(pure(true))));
    assert!(matches!(syntax.nnf(), Formula::Pure { value: true, .. }));
}

#[test]
fn test_nnf_negated_always_becomes_eventually() {
    let syntax = Syntax::Not(Box::new(Syntax::Always(pure(true), Some(5))));
    match syntax.nnf() {
        Formula::Eventually(inner, bound) => {
            assert_eq!(bound, Some(5));
            assert!(matches!(*inner, Formula::Pure { value: false, .. }));
        }
        other => panic!("expected eventually, got {:?}", other),
    }
}

#[test]
fn test_nnf_negation_on_thunk_is_a_flag() {
    let syntax = Syntax::Not(Box::new(Syntax::Thunk(thunk(3))));
    match syntax.nnf() {
        Formula::Thunk { function, negated } => {
            assert_eq!(function.id, 3);
            assert!(negated);
        }
        other => panic!("expected a thunk, got {:?}", other),
    }
}

#[test]
fn test_evaluate_pure_verdicts() {
    let ev = empty_evaluator();
    assert!(matches!(ev.evaluate(&pure_formula(true), 0), Ok(Value::True)));
    assert!(matches!(
        ev.evaluate(&pure_formula(false), 0),
        Ok(Value::False(_))
    ));
}

#[test]
fn test_evaluate_connectives() {
    let ev = empty_evaluator();
    let and_true = Formula::And(Box::new(pure_formula(true)), Box::new(pure_formula(true)));
    assert!(matches!(ev.evaluate(&and_true, 0), Ok(Value::True)));

    let and_false = Formula::And(Box::new(pure_formula(true)), Box::new(pure_formula(false)));
    assert!(matches!(ev.evaluate(&and_false, 0), Ok(Value::False(_))));

    let or_true = Formula::Or(Box::new(pure_formula(false)), Box::new(pure_formula(true)));
    assert!(matches!(ev.evaluate(&or_true, 0), Ok(Value::True)));

    // A false antecedent discharges the implication.
    let implies = Formula::Implies(Box::new(pure_formula(false)), Box::new(pure_formula(false)));
    assert!(matches!(ev.evaluate(&implies, 0), Ok(Value::True)));
}

#[test]
fn test_unresolved_thunk_is_reported() {
    let ev = empty_evaluator();
    let f = Formula::Thunk {
        function: thunk(9),
        negated: false,
    };
    assert_eq!(
        ev.evaluate(&f, 0).unwrap_err(),
        EvalError::UnresolvedThunk { id: 9 }
    );
}

#[test]
fn test_thunk_resolution_and_negation_flag() {
    let mut table = ThunkTable::new();
    table.insert(4, pure_formula(true));
    let ev = Evaluator::new(table);
    let plain = Formula::Thunk {
        function: thunk(4),
        negated: false,
    };
    let negated = Formula::Thunk {
        function: thunk(4),
        negated: true,
    };
    assert!(matches!(ev.evaluate(&plain, 0), Ok(Value::True)));
    assert!(matches!(ev.evaluate(&negated, 0), Ok(Value::False(_))));
}

#[test]
fn test_next_is_residual_with_true_stop_default() {
    let ev = empty_evaluator();
    let f = Formula::Next(Box::new(pure_formula(false)));
    match ev.evaluate(&f, 0).unwrap() {
        Value::Residual(residual) => {
            assert!(matches!(
                stop_default(&residual, 0),
                Some(StopDefault::True)
            ));
            // Stepping at the next instant evaluates the subformula.
            assert!(matches!(ev.step(&residual, 1), Ok(Value::False(_))));
        }
        other => panic!("expected a residual, got {:?}", other),
    }
}

fn verifier_with(name: &str, formula: Formula) -> Verifier {
    Verifier::new(vec![Property {
        name: name.to_string(),
        state: PropertyState::Initial(formula),
    }])
}

fn table_with(id: u64, value: bool) -> ThunkTable {
    let mut table = ThunkTable::new();
    table.insert(
        id,
        Formula::Pure {
            value,
            pretty: format!("{}", value),
        },
    );
    table
}

#[test]
fn test_property_names_are_reported() {
    let v = verifier_with("max_notifications_shown", pure_formula(true));
    assert_eq!(v.properties(), vec!["max_notifications_shown".to_string()]);
}

#[test]
fn test_always_holds_until_falsified() {
    let formula = Formula::Always(
        Box::new(Formula::Thunk {
            function: thunk(0),
            negated: false,
        }),
        None,
    );
    let mut v = verifier_with("my_prop", formula);
    for i in 0..=100u64 {
        let ev = Evaluator::new(table_with(0, i < 100));
        let results = v.step(&ev, i).unwrap();
        let (name, value) = &results[0];
        assert_eq!(name.as_str(), "my_prop");
        if i == 100 {
            assert!(matches!(value, PropertyValue::False(_)));
        } else {
            assert!(matches!(value, PropertyValue::Residual));
        }
    }
}

#[test]
fn test_always_bounded_turns_true_after_window() {
    // always(foo < 4).within(3): residual while the window is open, then
    // definitively true once the window has passed unfalsified.
    let formula = Formula::Always(
        Box::new(Formula::Thunk {
            function: thunk(0),
            negated: false,
        }),
        Some(3),
    );
    let mut v = verifier_with("my_prop", formula);
    for i in 0..10u64 {
        let ev = Evaluator::new(table_with(0, i < 4));
        let results = v.step(&ev, i).unwrap();
        let (_, value) = &results[0];
        if i < 4 {
            assert!(
                matches!(value, PropertyValue::Residual),
                "at {} should be residual but was {:?}",
                i,
                value
            );
        } else {
            assert!(matches!(value, PropertyValue::True));
        }
    }
}

#[test]
fn test_eventually_unbounded_waits_for_witness() {
    let formula = Formula::Eventually(
        Box::new(Formula::Thunk {
            function: thunk(0),
            negated: false,
        }),
        None,
    );
    let mut v = verifier_with("my_prop", formula);
    for i in 0..10u64 {
        let ev = Evaluator::new(table_with(0, i == 9));
        let results = v.step(&ev, i).unwrap();
        let (_, value) = &results[0];
        if i == 9 {
            assert!(matches!(value, PropertyValue::True));
        } else {
            assert!(matches!(value, PropertyValue::Residual));
        }
    }
}

#[test]
fn test_eventually_within_bound_times_out() {
    // eventually(foo.current === 9).within(3, "milliseconds") over the tick
    // sequence 0,1,2,...: residual through the window, then a timeout.
    let formula = Formula::Eventually(
        Box::new(Formula::Thunk {
            function: thunk(0),
            negated: false,
        }),
        Some(3),
    );
    let mut v = verifier_with("my_prop", formula);
    for i in 0..10u64 {
        let ev = Evaluator::new(table_with(0, i == 9));
        let results = v.step(&ev, i).unwrap();
        let (_, value) = &results[0];
        if i < 4 {
            assert!(
                matches!(value, PropertyValue::Residual),
                "at {} should be residual but was {:?}",
                i,
                value
            );
        } else {
            assert!(matches!(value, PropertyValue::False(_)));
        }
    }
}

#[test]
fn test_eventually_residual_has_false_stop_default() {
    let ev = Evaluator::new(table_with(0, false));
    let formula = Formula::Eventually(
        Box::new(Formula::Thunk {
            function: thunk(0),
            negated: false,
        }),
        None,
    );
    match ev.evaluate(&formula, 0).unwrap() {
        Value::Residual(residual) => {
            assert!(matches!(
                stop_default(&residual, 0),
                Some(StopDefault::False(_))
            ));
        }
        other => panic!("expected a residual, got {:?}", other),
    }
}

#[test]
fn test_monitor_settles_definitive_verdicts() {
    let mut v = verifier_with("my_prop", pure_formula(false));
    let ev = empty_evaluator();
    let first = v.step(&ev, 0).unwrap();
    assert!(matches!(first[0].1, PropertyValue::False(_)));
    // Later steps repeat the verdict without re-evaluating anything.
    let second = v.step(&ev, 1).unwrap();
    assert!(matches!(second[0].1, PropertyValue::False(_)));
}

#[test]
fn test_monitor_unresolved_thunk_stops_step() {
    let mut v = verifier_with(
        "my_prop",
        Formula::Thunk {
            function: thunk(5),
            negated: false,
        },
    );
    let ev = empty_evaluator();
    assert_eq!(
        v.step(&ev, 0).unwrap_err(),
        EvalError::UnresolvedThunk { id: 5 }
    );
}

#[test]
fn test_negate_dualises() {
    let f = Formula::Always(Box::new(pure_formula(true)), Some(7));
    match f.negate() {
        Formula::Eventually(inner, bound) => {
            assert_eq!(bound, Some(7));
            assert!(matches!(*inner, Formula::Pure { value: false, .. }));
        }
        other => panic!("expected eventually, got {:?}", other),
    }
}

#[test]
fn test_within_bound_no_timeout_on_early_witness() {
    // The witness arrives inside the window, so the bound never fires.
    let formula = Formula::Eventually(
        Box::new(Formula::Thunk {
            function: thunk(0),
            negated: false,
        }),
        Some(3),
    );
    let mut v = verifier_with("my_prop", formula);
    for i in 0..6u64 {
        let ev = Evaluator::new(table_with(0, i == 2));
        let results = v.step(&ev, i).unwrap();
        let (_, value) = &results[0];
        if i < 2 {
            assert!(matches!(value, PropertyValue::Residual));
        } else {
            assert!(matches!(value, PropertyValue::True));
        }
    }
}

fn run_formula(formula: Formula, values: &[bool]) -> PropertyValue {
    let mut v = verifier_with("law_prop", formula);
    let mut last = PropertyValue::Residual;
    for (i, &value) in values.iter().enumerate() {
        let ev = Evaluator::new(table_with(0, value));
        let results = v.step(&ev, i as u64).unwrap();
        last = match &results[0].1 {
            PropertyValue::True => PropertyValue::True,
            PropertyValue::False(_) => PropertyValue::False(
                bombadil::ltl::Violation::False {
                    time: 0,
                    condition: String::new(),
                },
            ),
            PropertyValue::Residual => PropertyValue::Residual,
        };
    }
    last
}

fn thunk_formula() -> Formula {
    Formula::Thunk {
        function: thunk(0),
        negated: false,
    }
}

fn kind(v: &PropertyValue) -> u8 {
    match v {
        PropertyValue::True => 0,
        PropertyValue::False(_) => 1,
        PropertyValue::Residual => 2,
    }
}

#[test]
fn test_always_distributes_over_conjunction() {
    // G(a ∧ a) and (G a) ∧ (G a) agree on sample traces.
    for trace in [&[true, true, true][..], &[true, false, true][..], &[false, true][..]] {
        let fused = Formula::Always(
            Box::new(Formula::And(Box::new(thunk_formula()), Box::new(thunk_formula()))),
            None,
        );
        let paired = Formula::And(
            Box::new(Formula::Always(Box::new(thunk_formula()), None)),
            Box::new(Formula::Always(Box::new(thunk_formula()), None)),
        );
        assert_eq!(kind(&run_formula(fused, trace)), kind(&run_formula(paired, trace)));
    }
}

#[test]
fn test_eventually_distributes_over_disjunction() {
    for trace in [&[false, false, true][..], &[false, false][..], &[true][..]] {
        let fused = Formula::Eventually(
            Box::new(Formula::Or(Box::new(thunk_formula()), Box::new(thunk_formula()))),
            None,
        );
        let paired = Formula::Or(
            Box::new(Formula::Eventually(Box::new(thunk_formula()), None)),
            Box::new(Formula::Eventually(Box::new(thunk_formula()), None)),
        );
        assert_eq!(kind(&run_formula(fused, trace)), kind(&run_formula(paired, trace)));
    }
}

#[test]
fn test_eventually_idempotent_on_traces() {
    for trace in [&[false, true][..], &[false, false, false][..], &[true][..]] {
        let once = Formula::Eventually(Box::new(thunk_formula()), None);
        let twice = Formula::Eventually(
            Box::new(Formula::Eventually(Box::new(thunk_formula()), None)),
            None,
        );
        assert_eq!(kind(&run_formula(once, trace)), kind(&run_formula(twice, trace)));
    }
}

#[test]
fn test_always_idempotent_on_traces() {
    for trace in [&[true, false][..], &[true, true, true][..], &[false][..]] {
        let once = Formula::Always(Box::new(thunk_formula()), None);
        let twice = Formula::Always(
            Box::new(Formula::Always(Box::new(thunk_formula()), None)),
            None,
        );
        assert_eq!(kind(&run_formula(once, trace)), kind(&run_formula(twice, trace)));
    }
}

#[test]
fn test_next_distributes_over_disjunction() {
    for trace in [&[false, true][..], &[true, false][..]] {
        let fused = Formula::Next(Box::new(Formula::Or(
            Box::new(thunk_formula()),
            Box::new(thunk_formula()),
        )));
        let paired = Formula::Or(
            Box::new(Formula::Next(Box::new(thunk_formula()))),
            Box::new(Formula::Next(Box::new(thunk_formula()))),
        );
        assert_eq!(kind(&run_formula(fused, trace)), kind(&run_formula(paired, trace)));
    }
}
