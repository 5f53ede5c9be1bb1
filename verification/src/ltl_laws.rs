//! Laws of the monitor's formula algebra.
//!
//! The rewriting into negation normal form and the incremental evaluator
//! obey the usual LTL identities. Where two formulas rewrite to the very
//! same normal form, the identity holds over every trace by construction;
//! the remaining identities are stated over whole runs of the evaluator,
//! compared up to violation witnesses and residual leanings.

use vstd::prelude::*;

use crate::ltl::{
    spec_and, spec_evaluate, spec_negate, spec_nnf, spec_or, spec_step, spec_stop_default,
    Derived, EvalError, Formula, Leaning, Residual, StopDefault, Syntax, ThunkRef, Time, Value,
};

verus! {

/// Formulas without `Implies` nodes. The rewriter keeps `Implies` for
/// better witnesses, so pushing a negation through a normal form agrees
/// with normalising the negation only away from implications (a negated
/// implication rewrites to a conjunction, not back to an implication).
pub open spec fn implication_free(s: Syntax) -> bool
    decreases s,
{
    match s {
        Syntax::Pure { .. } => true,
        Syntax::Thunk(_) => true,
        Syntax::Not(inner) => implication_free(*inner),
        Syntax::And(l, r) => implication_free(*l) && implication_free(*r),
        Syntax::Or(l, r) => implication_free(*l) && implication_free(*r),
        Syntax::Implies(..) => false,
        Syntax::Next(inner) => implication_free(*inner),
        Syntax::Always(inner, _) => implication_free(*inner),
        Syntax::Eventually(inner, _) => implication_free(*inner),
    }
}

/// Negation after normalisation is normalisation under a flipped flag:
/// the `Not` pushed into an NNF formula lands exactly where the rewriter
/// would have put it.
#[verifier::spinoff_prover]
#[verifier::rlimit(60)]
pub proof fn lemma_negate_nnf(s: Syntax, negated: bool)
    requires
        implication_free(s),
    ensures
        spec_negate(spec_nnf(s, negated)) == spec_nnf(s, !negated),
    decreases s,
{
    match s {
        Syntax::Pure { .. } => {},
        Syntax::Thunk(_) => {},
        Syntax::Not(inner) => {
            lemma_negate_nnf(*inner, !negated);
            assert(spec_nnf(s, negated) == spec_nnf(*inner, !negated));
            assert(spec_nnf(s, !negated) == spec_nnf(*inner, negated));
        },
        Syntax::And(l, r) => {
            lemma_negate_nnf(*l, negated);
            lemma_negate_nnf(*r, negated);
            if negated {
                assert(spec_nnf(s, negated) == Formula::Or(
                    Box::new(spec_nnf(*l, true)),
                    Box::new(spec_nnf(*r, true)),
                ));
                assert(spec_negate(spec_nnf(s, negated)) == Formula::And(
                    Box::new(spec_negate(spec_nnf(*l, true))),
                    Box::new(spec_negate(spec_nnf(*r, true))),
                ));
            } else {
                assert(spec_nnf(s, negated) == Formula::And(
                    Box::new(spec_nnf(*l, false)),
                    Box::new(spec_nnf(*r, false)),
                ));
                assert(spec_negate(spec_nnf(s, negated)) == Formula::Or(
                    Box::new(spec_negate(spec_nnf(*l, false))),
                    Box::new(spec_negate(spec_nnf(*r, false))),
                ));
            }
        },
        Syntax::Or(l, r) => {
            lemma_negate_nnf(*l, negated);
            lemma_negate_nnf(*r, negated);
            if negated {
                assert(spec_nnf(s, negated) == Formula::And(
                    Box::new(spec_nnf(*l, true)),
                    Box::new(spec_nnf(*r, true)),
                ));
                assert(spec_negate(spec_nnf(s, negated)) == Formula::Or(
                    Box::new(spec_negate(spec_nnf(*l, true))),
                    Box::new(spec_negate(spec_nnf(*r, true))),
                ));
            } else {
                assert(spec_nnf(s, negated) == Formula::Or(
                    Box::new(spec_nnf(*l, false)),
                    Box::new(spec_nnf(*r, false)),
                ));
                assert(spec_negate(spec_nnf(s, negated)) == Formula::And(
                    Box::new(spec_negate(spec_nnf(*l, false))),
                    Box::new(spec_negate(spec_nnf(*r, false))),
                ));
            }
        },
        Syntax::Implies(l, r) => {},
        Syntax::Next(inner) => {
            lemma_negate_nnf(*inner, negated);
            assert(spec_nnf(s, negated) == Formula::Next(Box::new(spec_nnf(*inner, negated))));
            assert(spec_negate(spec_nnf(s, negated)) == Formula::Next(
                Box::new(spec_negate(spec_nnf(*inner, negated))),
            ));
            assert(spec_nnf(s, !negated) == Formula::Next(Box::new(spec_nnf(*inner, !negated))));
        },
        Syntax::Always(inner, bound) => {
            lemma_negate_nnf(*inner, negated);
            if negated {
                assert(spec_nnf(s, negated) == Formula::Eventually(
                    Box::new(spec_nnf(*inner, true)),
                    bound,
                ));
                assert(spec_negate(spec_nnf(s, negated)) == Formula::Always(
                    Box::new(spec_negate(spec_nnf(*inner, true))),
                    bound,
                ));
            } else {
                assert(spec_nnf(s, negated) == Formula::Always(
                    Box::new(spec_nnf(*inner, false)),
                    bound,
                ));
                assert(spec_negate(spec_nnf(s, negated)) == Formula::Eventually(
                    Box::new(spec_negate(spec_nnf(*inner, false))),
                    bound,
                ));
            }
        },
        Syntax::Eventually(inner, bound) => {
            lemma_negate_nnf(*inner, negated);
            if negated {
                assert(spec_nnf(s, negated) == Formula::Always(
                    Box::new(spec_nnf(*inner, true)),
                    bound,
                ));
                assert(spec_negate(spec_nnf(s, negated)) == Formula::Eventually(
                    Box::new(spec_negate(spec_nnf(*inner, true))),
                    bound,
                ));
            } else {
                assert(spec_nnf(s, negated) == Formula::Eventually(
                    Box::new(spec_nnf(*inner, false)),
                    bound,
                ));
                assert(spec_negate(spec_nnf(s, negated)) == Formula::Always(
                    Box::new(spec_negate(spec_nnf(*inner, false))),
                    bound,
                ));
            }
        },
    }
}

/// `X ¬φ` and `¬X φ` have the same normal form, so they evaluate alike on
/// every trace.
pub proof fn lemma_next_self_duality(s: Syntax)
    ensures
        spec_nnf(Syntax::Not(Box::new(Syntax::Next(Box::new(s)))), false) == spec_nnf(
            Syntax::Next(Box::new(Syntax::Not(Box::new(s)))),
            false,
        ),
{
    assert(spec_nnf(Syntax::Not(Box::new(Syntax::Next(Box::new(s)))), false) == spec_nnf(
        Syntax::Next(Box::new(s)),
        true,
    ));
    assert(spec_nnf(Syntax::Next(Box::new(s)), true) == Formula::Next(
        Box::new(spec_nnf(s, true)),
    ));
    assert(spec_nnf(Syntax::Not(Box::new(s)), false) == spec_nnf(s, true));
    assert(spec_nnf(Syntax::Next(Box::new(Syntax::Not(Box::new(s)))), false) == Formula::Next(
        Box::new(spec_nnf(Syntax::Not(Box::new(s)), false)),
    ));
}

/// `G ¬φ` and `¬F φ` have the same normal form (and dually with the roles
/// of `G` and `F` swapped), bounds included.
pub proof fn lemma_always_eventually_duality(s: Syntax, bound: Option<u64>)
    ensures
        spec_nnf(Syntax::Always(Box::new(Syntax::Not(Box::new(s))), bound), false) == spec_nnf(
            Syntax::Not(Box::new(Syntax::Eventually(Box::new(s), bound))),
            false,
        ),
        spec_nnf(Syntax::Eventually(Box::new(Syntax::Not(Box::new(s))), bound), false)
            == spec_nnf(Syntax::Not(Box::new(Syntax::Always(Box::new(s), bound))), false),
{
    assert(spec_nnf(Syntax::Not(Box::new(s)), false) == spec_nnf(s, true));
    assert(spec_nnf(Syntax::Always(Box::new(Syntax::Not(Box::new(s))), bound), false)
        == Formula::Always(Box::new(spec_nnf(Syntax::Not(Box::new(s)), false)), bound));
    assert(spec_nnf(Syntax::Not(Box::new(Syntax::Eventually(Box::new(s), bound))), false)
        == spec_nnf(Syntax::Eventually(Box::new(s), bound), true));
    assert(spec_nnf(Syntax::Eventually(Box::new(s), bound), true) == Formula::Always(
        Box::new(spec_nnf(s, true)),
        bound,
    ));
    assert(spec_nnf(Syntax::Eventually(Box::new(Syntax::Not(Box::new(s))), bound), false)
        == Formula::Eventually(Box::new(spec_nnf(Syntax::Not(Box::new(s)), false)), bound));
    assert(spec_nnf(Syntax::Not(Box::new(Syntax::Always(Box::new(s), bound))), false)
        == spec_nnf(Syntax::Always(Box::new(s), bound), true));
    assert(spec_nnf(Syntax::Always(Box::new(s), bound), true) == Formula::Eventually(
        Box::new(spec_nnf(s, true)),
        bound,
    ));
}

/// De Morgan: a negated conjunction normalises as the disjunction of the
/// negations, and dually.
pub proof fn lemma_de_morgan(a: Syntax, b: Syntax)
    ensures
        spec_nnf(Syntax::Not(Box::new(Syntax::And(Box::new(a), Box::new(b)))), false) == spec_nnf(
            Syntax::Or(
                Box::new(Syntax::Not(Box::new(a))),
                Box::new(Syntax::Not(Box::new(b))),
            ),
            false,
        ),
        spec_nnf(Syntax::Not(Box::new(Syntax::Or(Box::new(a), Box::new(b)))), false) == spec_nnf(
            Syntax::And(
                Box::new(Syntax::Not(Box::new(a))),
                Box::new(Syntax::Not(Box::new(b))),
            ),
            false,
        ),
{
    assert(spec_nnf(Syntax::Not(Box::new(a)), false) == spec_nnf(a, true));
    assert(spec_nnf(Syntax::Not(Box::new(b)), false) == spec_nnf(b, true));
    assert(spec_nnf(Syntax::Not(Box::new(Syntax::And(Box::new(a), Box::new(b)))), false)
        == spec_nnf(Syntax::And(Box::new(a), Box::new(b)), true));
    assert(spec_nnf(Syntax::And(Box::new(a), Box::new(b)), true) == Formula::Or(
        Box::new(spec_nnf(a, true)),
        Box::new(spec_nnf(b, true)),
    ));
    assert(spec_nnf(
        Syntax::Or(Box::new(Syntax::Not(Box::new(a))), Box::new(Syntax::Not(Box::new(b)))),
        false,
    ) == Formula::Or(
        Box::new(spec_nnf(Syntax::Not(Box::new(a)), false)),
        Box::new(spec_nnf(Syntax::Not(Box::new(b)), false)),
    ));
    assert(spec_nnf(Syntax::Not(Box::new(Syntax::Or(Box::new(a), Box::new(b)))), false)
        == spec_nnf(Syntax::Or(Box::new(a), Box::new(b)), true));
    assert(spec_nnf(Syntax::Or(Box::new(a), Box::new(b)), true) == Formula::And(
        Box::new(spec_nnf(a, true)),
        Box::new(spec_nnf(b, true)),
    ));
    assert(spec_nnf(
        Syntax::And(Box::new(Syntax::Not(Box::new(a))), Box::new(Syntax::Not(Box::new(b)))),
        false,
    ) == Formula::And(
        Box::new(spec_nnf(Syntax::Not(Box::new(a)), false)),
        Box::new(spec_nnf(Syntax::Not(Box::new(b)), false)),
    ));
}

/// Double negation cancels under normalisation.
pub proof fn lemma_double_negation(s: Syntax)
    ensures
        spec_nnf(Syntax::Not(Box::new(Syntax::Not(Box::new(s)))), false) == spec_nnf(s, false),
{
    assert(spec_nnf(Syntax::Not(Box::new(Syntax::Not(Box::new(s)))), false) == spec_nnf(
        Syntax::Not(Box::new(s)),
        true,
    ));
    assert(spec_nnf(Syntax::Not(Box::new(s)), true) == spec_nnf(s, false));
}

/// A negated implication normalises to a conjunction with a negated
/// consequent.
pub proof fn lemma_negated_implication(a: Syntax, b: Syntax)
    ensures
        spec_nnf(Syntax::Not(Box::new(Syntax::Implies(Box::new(a), Box::new(b)))), false)
            == spec_nnf(
            Syntax::And(Box::new(a), Box::new(Syntax::Not(Box::new(b)))),
            false,
        ),
{
    assert(spec_nnf(Syntax::Not(Box::new(Syntax::Implies(Box::new(a), Box::new(b)))), false)
        == spec_nnf(Syntax::Implies(Box::new(a), Box::new(b)), true));
    assert(spec_nnf(Syntax::Implies(Box::new(a), Box::new(b)), true) == Formula::And(
        Box::new(spec_nnf(a, false)),
        Box::new(spec_nnf(b, true)),
    ));
    assert(spec_nnf(Syntax::And(Box::new(a), Box::new(Syntax::Not(Box::new(b)))), false)
        == Formula::And(
        Box::new(spec_nnf(a, false)),
        Box::new(spec_nnf(Syntax::Not(Box::new(b)), false)),
    ));
    assert(spec_nnf(Syntax::Not(Box::new(b)), false) == spec_nnf(b, true));
}

/// Formulas without thunks and without temporal operators.
pub open spec fn propositional(s: Syntax) -> bool
    decreases s,
{
    match s {
        Syntax::Pure { .. } => true,
        Syntax::Thunk(_) => false,
        Syntax::Not(inner) => propositional(*inner),
        Syntax::And(l, r) => propositional(*l) && propositional(*r),
        Syntax::Or(l, r) => propositional(*l) && propositional(*r),
        Syntax::Implies(l, r) => propositional(*l) && propositional(*r),
        Syntax::Next(_) => false,
        Syntax::Always(..) => false,
        Syntax::Eventually(..) => false,
    }
}

/// The classical truth value of a propositional formula, `Not` included.
pub open spec fn prop_sem(s: Syntax) -> bool
    decreases s,
{
    match s {
        Syntax::Pure { value, .. } => value,
        Syntax::Thunk(_) => false,
        Syntax::Not(inner) => !prop_sem(*inner),
        Syntax::And(l, r) => prop_sem(*l) && prop_sem(*r),
        Syntax::Or(l, r) => prop_sem(*l) || prop_sem(*r),
        Syntax::Implies(l, r) => !prop_sem(*l) || prop_sem(*r),
        Syntax::Next(_) => false,
        Syntax::Always(..) => false,
        Syntax::Eventually(..) => false,
    }
}

/// Normal forms preserve evaluation: on the propositional fragment, the
/// evaluator run on `NNF(φ)` decides exactly the classical value of `φ`,
/// under any pending negation, any resolution table, time and budget.
pub proof fn lemma_nnf_preserves_evaluation(
    env: Seq<(u64, Formula)>,
    s: Syntax,
    negated: bool,
    time: Time,
    fuel: nat,
)
    requires
        propositional(s),
    ensures
        spec_evaluate(env, spec_nnf(s, negated), time, fuel) matches Ok(v) && (v is True == (
        prop_sem(s) != negated)) && (v is False == (prop_sem(s) == negated)),
    decreases s,
{
    match s {
        Syntax::Pure { .. } => {},
        Syntax::Thunk(_) => {},
        Syntax::Not(inner) => {
            lemma_nnf_preserves_evaluation(env, *inner, !negated, time, fuel);
        },
        Syntax::And(l, r) => {
            lemma_nnf_preserves_evaluation(env, *l, negated, time, fuel);
            lemma_nnf_preserves_evaluation(env, *r, negated, time, fuel);
        },
        Syntax::Or(l, r) => {
            lemma_nnf_preserves_evaluation(env, *l, negated, time, fuel);
            lemma_nnf_preserves_evaluation(env, *r, negated, time, fuel);
        },
        Syntax::Implies(l, r) => {
            if negated {
                lemma_nnf_preserves_evaluation(env, *l, false, time, fuel);
                lemma_nnf_preserves_evaluation(env, *r, true, time, fuel);
            } else {
                lemma_nnf_preserves_evaluation(env, *l, false, time, fuel);
                lemma_nnf_preserves_evaluation(env, *r, false, time, fuel);
            }
        },
        Syntax::Next(_) => {},
        Syntax::Always(..) => {},
        Syntax::Eventually(..) => {},
    }
}

/// One tick of a trace: the thunk resolutions of that instant and its
/// timestamp.
pub struct Tick {
    pub env: Seq<(u64, Formula)>,
    pub time: Time,
}

/// Carry a verdict through the remaining ticks: residuals are stepped,
/// decided verdicts are final.
pub open spec fn spec_continue(v: Value, ticks: Seq<Tick>, fuel: nat) -> Result<Value, EvalError>
    decreases ticks.len(),
{
    if ticks.len() == 0 {
        Ok(v)
    } else {
        match v {
            Value::Residual(r) => match spec_step(ticks[0].env, r, ticks[0].time, fuel) {
                Err(e) => Err(e),
                Ok(v2) => spec_continue(v2, ticks.drop_first(), fuel),
            },
            decided => Ok(decided),
        }
    }
}

/// A whole run: evaluate at the first tick, then step through the rest.
pub open spec fn spec_run(f: Formula, first: Tick, rest: Seq<Tick>, fuel: nat) -> Result<
    Value,
    EvalError,
> {
    match spec_evaluate(first.env, f, first.time, fuel) {
        Err(e) => Err(e),
        Ok(v) => spec_continue(v, rest, fuel),
    }
}

/// Verdicts compared up to witnesses: residuals count by the verdict their
/// leanings would produce at test end.
pub open spec fn verdict_eq(a: Value, b: Value) -> bool {
    match (a, b) {
        (Value::True, Value::True) => true,
        (Value::False(_), Value::False(_)) => true,
        (Value::Residual(r1), Value::Residual(r2)) => (spec_stop_default(r1) is True)
            == (spec_stop_default(r2) is True),
        _ => false,
    }
}

/// `X (φ ∨ ψ)` and `(X φ) ∨ (X ψ)` run alike on every trace: equal from
/// the second tick on, and with the same test-end verdict before it.
#[verifier::spinoff_prover]
#[verifier::rlimit(60)]
pub proof fn lemma_next_distributes_over_or(
    a: Formula,
    b: Formula,
    first: Tick,
    rest: Seq<Tick>,
    fuel: nat,
)
    ensures
        ({
            let lhs = spec_run(
                Formula::Next(Box::new(Formula::Or(Box::new(a), Box::new(b)))),
                first,
                rest,
                fuel,
            );
            let rhs = spec_run(
                Formula::Or(
                    Box::new(Formula::Next(Box::new(a))),
                    Box::new(Formula::Next(Box::new(b))),
                ),
                first,
                rest,
                fuel,
            );
            &&& rest.len() > 0 ==> lhs == rhs
            &&& rest.len() == 0 ==> (lhs matches Ok(v1) && rhs matches Ok(v2) && verdict_eq(
                v1,
                v2,
            ))
        }),
{
    let left_formula = Formula::Next(Box::new(Formula::Or(Box::new(a), Box::new(b))));
    let right_formula = Formula::Or(
        Box::new(Formula::Next(Box::new(a))),
        Box::new(Formula::Next(Box::new(b))),
    );
    let once_or = Residual::Derived(
        Derived::Once {
            start: first.time,
            subformula: Box::new(Formula::Or(Box::new(a), Box::new(b))),
        },
        Leaning::AssumeTrue,
    );
    let once_a = Residual::Derived(
        Derived::Once { start: first.time, subformula: Box::new(a) },
        Leaning::AssumeTrue,
    );
    let once_b = Residual::Derived(
        Derived::Once { start: first.time, subformula: Box::new(b) },
        Leaning::AssumeTrue,
    );
    let joined = Residual::Or { left: Box::new(once_a), right: Box::new(once_b) };
    assert(spec_evaluate(first.env, left_formula, first.time, fuel) == Ok::<Value, EvalError>(
        Value::Residual(once_or),
    ));
    assert(spec_evaluate(first.env, Formula::Next(Box::new(a)), first.time, fuel) == Ok::<
        Value,
        EvalError,
    >(Value::Residual(once_a)));
    assert(spec_evaluate(first.env, Formula::Next(Box::new(b)), first.time, fuel) == Ok::<
        Value,
        EvalError,
    >(Value::Residual(once_b)));
    assert(spec_or(Value::Residual(once_a), Value::Residual(once_b)) == Value::Residual(joined));
    assert(spec_evaluate(first.env, right_formula, first.time, fuel) == Ok::<Value, EvalError>(
        Value::Residual(joined),
    ));
    if rest.len() == 0 {
        assert(spec_stop_default(once_or) is True);
        assert(spec_stop_default(once_a) is True);
        assert(spec_stop_default(once_b) is True);
        assert(spec_stop_default(joined) is True);
    } else {
        let t = rest[0];
        assert(spec_step(t.env, once_or, t.time, fuel) == spec_evaluate(
            t.env,
            Formula::Or(Box::new(a), Box::new(b)),
            t.time,
            fuel,
        ));
        assert(spec_step(t.env, once_a, t.time, fuel) == spec_evaluate(t.env, a, t.time, fuel));
        assert(spec_step(t.env, once_b, t.time, fuel) == spec_evaluate(t.env, b, t.time, fuel));
        assert(spec_evaluate(t.env, Formula::Or(Box::new(a), Box::new(b)), t.time, fuel)
            == spec_step(t.env, joined, t.time, fuel));
        assert(spec_step(t.env, once_or, t.time, fuel) == spec_step(t.env, joined, t.time, fuel));
    }
}

/// `X (φ ∧ ψ)` and `(X φ) ∧ (X ψ)` run alike on every trace, in the same
/// sense.
#[verifier::spinoff_prover]
#[verifier::rlimit(60)]
pub proof fn lemma_next_distributes_over_and(
    a: Formula,
    b: Formula,
    first: Tick,
    rest: Seq<Tick>,
    fuel: nat,
)
    ensures
        ({
            let lhs = spec_run(
                Formula::Next(Box::new(Formula::And(Box::new(a), Box::new(b)))),
                first,
                rest,
                fuel,
            );
            let rhs = spec_run(
                Formula::And(
                    Box::new(Formula::Next(Box::new(a))),
                    Box::new(Formula::Next(Box::new(b))),
                ),
                first,
                rest,
                fuel,
            );
            &&& rest.len() > 0 ==> lhs == rhs
            &&& rest.len() == 0 ==> (lhs matches Ok(v1) && rhs matches Ok(v2) && verdict_eq(
                v1,
                v2,
            ))
        }),
{
    let left_formula = Formula::Next(Box::new(Formula::And(Box::new(a), Box::new(b))));
    let right_formula = Formula::And(
        Box::new(Formula::Next(Box::new(a))),
        Box::new(Formula::Next(Box::new(b))),
    );
    let once_or = Residual::Derived(
        Derived::Once {
            start: first.time,
            subformula: Box::new(Formula::And(Box::new(a), Box::new(b))),
        },
        Leaning::AssumeTrue,
    );
    let once_a = Residual::Derived(
        Derived::Once { start: first.time, subformula: Box::new(a) },
        Leaning::AssumeTrue,
    );
    let once_b = Residual::Derived(
        Derived::Once { start: first.time, subformula: Box::new(b) },
        Leaning::AssumeTrue,
    );
    let joined = Residual::And { left: Box::new(once_a), right: Box::new(once_b) };
    assert(spec_evaluate(first.env, left_formula, first.time, fuel) == Ok::<Value, EvalError>(
        Value::Residual(once_or),
    ));
    assert(spec_evaluate(first.env, Formula::Next(Box::new(a)), first.time, fuel) == Ok::<
        Value,
        EvalError,
    >(Value::Residual(once_a)));
    assert(spec_evaluate(first.env, Formula::Next(Box::new(b)), first.time, fuel) == Ok::<
        Value,
        EvalError,
    >(Value::Residual(once_b)));
    assert(spec_and(Value::Residual(once_a), Value::Residual(once_b)) == Value::Residual(joined));
    assert(spec_evaluate(first.env, right_formula, first.time, fuel) == Ok::<Value, EvalError>(
        Value::Residual(joined),
    ));
    if rest.len() == 0 {
        assert(spec_stop_default(once_or) is True);
        assert(spec_stop_default(once_a) is True);
        assert(spec_stop_default(once_b) is True);
        assert(spec_stop_default(joined) is True);
    } else {
        let t = rest[0];
        assert(spec_step(t.env, once_or, t.time, fuel) == spec_evaluate(
            t.env,
            Formula::And(Box::new(a), Box::new(b)),
            t.time,
            fuel,
        ));
        assert(spec_step(t.env, once_a, t.time, fuel) == spec_evaluate(t.env, a, t.time, fuel));
        assert(spec_step(t.env, once_b, t.time, fuel) == spec_evaluate(t.env, b, t.time, fuel));
        assert(spec_evaluate(t.env, Formula::And(Box::new(a), Box::new(b)), t.time, fuel)
            == spec_step(t.env, joined, t.time, fuel));
        assert(spec_step(t.env, once_or, t.time, fuel) == spec_step(t.env, joined, t.time, fuel));
    }
}

/// What the table of an instant resolves a thunk to, when that is a plain
/// truth value.
pub open spec fn bool_resolution(env: Seq<(u64, Formula)>, id: u64) -> Option<bool> {
    match crate::ltl::spec_lookup(env, id) {
        Some(g) => match g {
            Formula::Pure { value, .. } => Some(value),
            _ => None,
        },
        None => None,
    }
}

/// Every tick resolves the thunk to a plain truth value.
pub open spec fn ticks_resolve(ticks: Seq<Tick>, id: u64) -> bool {
    forall|i: int| 0 <= i < ticks.len() ==> #[trigger] bool_resolution(ticks[i].env, id) is Some
}

/// Timestamps never go backwards.
pub open spec fn ticks_sorted(ticks: Seq<Tick>) -> bool {
    forall|i: int, j: int| 0 <= i < j < ticks.len() ==> ticks[i].time <= ticks[j].time
}

/// Some tick inside the window resolves the thunk to true.
pub open spec fn hit_within(ticks: Seq<Tick>, id: u64, end: Time) -> bool {
    exists|i: int|
        0 <= i < ticks.len() && ticks[i].time <= end && bool_resolution(ticks[i].env, id)
            == Some(true)
}

/// Some tick falls beyond the window.
pub open spec fn past_window(ticks: Seq<Tick>, end: Time) -> bool {
    exists|i: int| 0 <= i < ticks.len() && ticks[i].time > end
}

/// The still-open residual of a bounded `eventually` over a thunk.
pub open spec fn eventually_residual(t: ThunkRef, start: Time, end: Time) -> Residual {
    Residual::Derived(
        Derived::Eventually {
            start,
            end: Some(end),
            subformula: Box::new(Formula::Thunk { function: t, negated: false }),
        },
        Leaning::AssumeFalse(
            crate::ltl::Violation::Eventually {
                subformula: Box::new(Formula::Thunk { function: t, negated: false }),
                reason: crate::ltl::EventuallyViolation::TestEnded,
            },
        ),
    )
}

proof fn lemma_thunk_tick(env: Seq<(u64, Formula)>, t: ThunkRef, time: Time, fuel: nat)
    requires
        fuel >= 1,
        bool_resolution(env, t.id) is Some,
    ensures
        bool_resolution(env, t.id) == Some(true) ==> (spec_evaluate(
            env,
            Formula::Thunk { function: t, negated: false },
            time,
            fuel,
        ) matches Ok(v) && v is True),
        bool_resolution(env, t.id) == Some(false) ==> (spec_evaluate(
            env,
            Formula::Thunk { function: t, negated: false },
            time,
            fuel,
        ) matches Ok(v) && v is False),
{
    let g = crate::ltl::spec_lookup(env, t.id).unwrap();
    assert(spec_evaluate(env, Formula::Thunk { function: t, negated: false }, time, fuel)
        == spec_evaluate(env, g, time, (fuel - 1) as nat));
}

/// Stepping the open residual of a bounded `eventually` through sorted,
/// boolean-resolving ticks: it turns true at the first in-window hit,
/// times out at the first tick beyond the window, and otherwise stays the
/// same residual, whose test-end verdict is false.
proof fn lemma_eventually_continue(t: ThunkRef, start: Time, end: Time, ticks: Seq<Tick>, fuel: nat)
    requires
        fuel >= 1,
        ticks_resolve(ticks, t.id),
        ticks_sorted(ticks),
    ensures
        ({
            let r = spec_continue(
                Value::Residual(eventually_residual(t, start, end)),
                ticks,
                fuel,
            );
            &&& hit_within(ticks, t.id, end) ==> (r matches Ok(v) && v is True)
            &&& (!hit_within(ticks, t.id, end) && past_window(ticks, end)) ==> (r matches Ok(v)
                && v is False)
            &&& (!hit_within(ticks, t.id, end) && !past_window(ticks, end)) ==> r == Ok::<
                Value,
                EvalError,
            >(Value::Residual(eventually_residual(t, start, end)))
        }),
    decreases ticks.len(),
{
    let residual = eventually_residual(t, start, end);
    if ticks.len() == 0 {
        assert(!hit_within(ticks, t.id, end));
        assert(!past_window(ticks, end));
    } else {
        let t0 = ticks[0];
        assert(bool_resolution(t0.env, t.id) is Some);
        lemma_thunk_tick(t0.env, t, t0.time, fuel);
        let stepped = spec_step(t0.env, residual, t0.time, fuel);
        assert(stepped == crate::ltl::spec_evaluate_eventually(
            t0.env,
            Formula::Thunk { function: t, negated: false },
            start,
            Some(end),
            t0.time,
            fuel,
        ));
        if t0.time > end {
            assert(stepped matches Ok(v) && v is False);
            assert(spec_continue(Value::Residual(residual), ticks, fuel) == spec_continue(
                stepped.unwrap(),
                ticks.drop_first(),
                fuel,
            ));
            assert(spec_continue(stepped.unwrap(), ticks.drop_first(), fuel) == Ok::<
                Value,
                EvalError,
            >(stepped.unwrap()));
            assert(past_window(ticks, end));
            assert forall|i: int|
                0 <= i < ticks.len() implies !(ticks[i].time <= end && bool_resolution(
                ticks[i].env,
                t.id,
            ) == Some(true)) by {
                if i > 0 {
                    assert(ticks[0].time <= ticks[i].time);
                }
            }
            assert(!hit_within(ticks, t.id, end));
        } else if bool_resolution(t0.env, t.id) == Some(true) {
            assert(stepped matches Ok(v) && v is True);
            assert(spec_continue(Value::Residual(residual), ticks, fuel) == spec_continue(
                stepped.unwrap(),
                ticks.drop_first(),
                fuel,
            ));
            assert(spec_continue(stepped.unwrap(), ticks.drop_first(), fuel) == Ok::<
                Value,
                EvalError,
            >(stepped.unwrap()));
            assert(hit_within(ticks, t.id, end));
        } else {
            assert(stepped == Ok::<Value, EvalError>(Value::Residual(residual)));
            let rest = ticks.drop_first();
            assert(spec_continue(Value::Residual(residual), ticks, fuel) == spec_continue(
                Value::Residual(residual),
                rest,
                fuel,
            ));
            assert(ticks_resolve(rest, t.id)) by {
                assert(forall|i: int|
                    0 <= i < rest.len() ==> rest[i] == ticks[i + 1]);
            }
            assert(ticks_sorted(rest)) by {
                assert(forall|i: int|
                    0 <= i < rest.len() ==> rest[i] == ticks[i + 1]);
            }
            lemma_eventually_continue(t, start, end, rest, fuel);
            assert(hit_within(rest, t.id, end) == hit_within(ticks, t.id, end)) by {
                if hit_within(rest, t.id, end) {
                    let i = choose|i: int|
                        0 <= i < rest.len() && rest[i].time <= end && bool_resolution(
                            rest[i].env,
                            t.id,
                        ) == Some(true);
                    assert(ticks[i + 1].time <= end && bool_resolution(ticks[i + 1].env, t.id)
                        == Some(true));
                }
                if hit_within(ticks, t.id, end) {
                    let i = choose|i: int|
                        0 <= i < ticks.len() && ticks[i].time <= end && bool_resolution(
                            ticks[i].env,
                            t.id,
                        ) == Some(true);
                    assert(i != 0);
                    assert(rest[i - 1].time <= end && bool_resolution(rest[i - 1].env, t.id)
                        == Some(true));
                }
            }
            assert(past_window(rest, end) == past_window(ticks, end)) by {
                if past_window(rest, end) {
                    let i = choose|i: int| 0 <= i < rest.len() && rest[i].time > end;
                    assert(ticks[i + 1].time > end);
                }
                if past_window(ticks, end) {
                    let i = choose|i: int| 0 <= i < ticks.len() && ticks[i].time > end;
                    assert(i != 0);
                    assert(rest[i - 1].time > end);
                }
            }
        }
    }
}

/// Within-bound semantics of `eventually`: over a run whose ticks resolve
/// the thunk to plain truth values with never-decreasing timestamps,
/// `eventually(φ).within(d)` turns false exactly when no tick inside
/// `[t0, t0 + d]` saw φ true and some tick fell beyond the window; it
/// turns true exactly when a tick inside the window saw φ true; and it
/// stays residual, leaning false, while the window is open.
pub proof fn lemma_eventually_within_bound(t: ThunkRef, d: u64, first: Tick, rest: Seq<Tick>, fuel: nat)
    requires
        fuel >= 1,
        first.time + d <= u64::MAX,
        bool_resolution(first.env, t.id) is Some,
        ticks_resolve(rest, t.id),
        ticks_sorted(rest),
    ensures
        ({
            let f = Formula::Eventually(
                Box::new(Formula::Thunk { function: t, negated: false }),
                Some(d),
            );
            let end = (first.time + d) as u64;
            let hit = bool_resolution(first.env, t.id) == Some(true) || hit_within(
                rest,
                t.id,
                end,
            );
            let r = spec_run(f, first, rest, fuel);
            &&& hit ==> (r matches Ok(v) && v is True)
            &&& (!hit && past_window(rest, end)) ==> (r matches Ok(v) && v is False)
            &&& (!hit && !past_window(rest, end)) ==> (r matches Ok(v) && (v matches
                Value::Residual(res) && !(crate::ltl::spec_stop_default(res) is True)))
        }),
{
    let f = Formula::Eventually(
        Box::new(Formula::Thunk { function: t, negated: false }),
        Some(d),
    );
    let end = (first.time + d) as u64;
    lemma_thunk_tick(first.env, t, first.time, fuel);
    assert(spec_evaluate(first.env, f, first.time, fuel)
        == crate::ltl::spec_evaluate_eventually(
        first.env,
        Formula::Thunk { function: t, negated: false },
        first.time,
        Some(end),
        first.time,
        fuel,
    ));
    if bool_resolution(first.env, t.id) == Some(true) {
    } else {
        assert(spec_evaluate(first.env, f, first.time, fuel) == Ok::<Value, EvalError>(
            Value::Residual(eventually_residual(t, first.time, end)),
        ));
        lemma_eventually_continue(t, first.time, end, rest, fuel);
    }
}

/// Some tick inside the window resolves the thunk to false.
pub open spec fn miss_within(ticks: Seq<Tick>, id: u64, end: Time) -> bool {
    exists|i: int|
        0 <= i < ticks.len() && ticks[i].time <= end && bool_resolution(ticks[i].env, id)
            == Some(false)
}

/// The still-open residual of a bounded `always` over a thunk.
pub open spec fn always_residual(t: ThunkRef, start: Time, end: Time) -> Residual {
    Residual::Derived(
        Derived::Always {
            start,
            end: Some(end),
            subformula: Box::new(Formula::Thunk { function: t, negated: false }),
        },
        Leaning::AssumeTrue,
    )
}

proof fn lemma_always_continue(t: ThunkRef, start: Time, end: Time, ticks: Seq<Tick>, fuel: nat)
    requires
        fuel >= 1,
        ticks_resolve(ticks, t.id),
        ticks_sorted(ticks),
    ensures
        ({
            let r = spec_continue(Value::Residual(always_residual(t, start, end)), ticks, fuel);
            &&& miss_within(ticks, t.id, end) ==> (r matches Ok(v) && v is False)
            &&& (!miss_within(ticks, t.id, end) && past_window(ticks, end)) ==> (r matches Ok(v)
                && v is True)
            &&& (!miss_within(ticks, t.id, end) && !past_window(ticks, end)) ==> r == Ok::<
                Value,
                EvalError,
            >(Value::Residual(always_residual(t, start, end)))
        }),
    decreases ticks.len(),
{
    let residual = always_residual(t, start, end);
    if ticks.len() == 0 {
        assert(!miss_within(ticks, t.id, end));
        assert(!past_window(ticks, end));
    } else {
        let t0 = ticks[0];
        assert(bool_resolution(t0.env, t.id) is Some);
        lemma_thunk_tick(t0.env, t, t0.time, fuel);
        let stepped = spec_step(t0.env, residual, t0.time, fuel);
        assert(stepped == crate::ltl::spec_evaluate_always(
            t0.env,
            Formula::Thunk { function: t, negated: false },
            start,
            Some(end),
            t0.time,
            fuel,
        ));
        if t0.time > end {
            assert(stepped matches Ok(v) && v is True);
            assert(spec_continue(Value::Residual(residual), ticks, fuel) == spec_continue(
                stepped.unwrap(),
                ticks.drop_first(),
                fuel,
            ));
            assert(spec_continue(stepped.unwrap(), ticks.drop_first(), fuel) == Ok::<
                Value,
                EvalError,
            >(stepped.unwrap()));
            assert(past_window(ticks, end));
            assert forall|i: int|
                0 <= i < ticks.len() implies !(ticks[i].time <= end && bool_resolution(
                ticks[i].env,
                t.id,
            ) == Some(false)) by {
                if i > 0 {
                    assert(ticks[0].time <= ticks[i].time);
                }
            }
            assert(!miss_within(ticks, t.id, end));
        } else if bool_resolution(t0.env, t.id) == Some(false) {
            assert(stepped matches Ok(v) && v is False);
            assert(spec_continue(Value::Residual(residual), ticks, fuel) == spec_continue(
                stepped.unwrap(),
                ticks.drop_first(),
                fuel,
            ));
            assert(spec_continue(stepped.unwrap(), ticks.drop_first(), fuel) == Ok::<
                Value,
                EvalError,
            >(stepped.unwrap()));
            assert(miss_within(ticks, t.id, end));
        } else {
            assert(stepped == Ok::<Value, EvalError>(Value::Residual(residual)));
            let rest = ticks.drop_first();
            assert(spec_continue(Value::Residual(residual), ticks, fuel) == spec_continue(
                Value::Residual(residual),
                rest,
                fuel,
            ));
            assert(ticks_resolve(rest, t.id)) by {
                assert(forall|i: int| 0 <= i < rest.len() ==> rest[i] == ticks[i + 1]);
            }
            assert(ticks_sorted(rest)) by {
                assert(forall|i: int| 0 <= i < rest.len() ==> rest[i] == ticks[i + 1]);
            }
            lemma_always_continue(t, start, end, rest, fuel);
            assert(miss_within(rest, t.id, end) == miss_within(ticks, t.id, end)) by {
                if miss_within(rest, t.id, end) {
                    let i = choose|i: int|
                        0 <= i < rest.len() && rest[i].time <= end && bool_resolution(
                            rest[i].env,
                            t.id,
                        ) == Some(false);
                    assert(ticks[i + 1].time <= end && bool_resolution(ticks[i + 1].env, t.id)
                        == Some(false));
                }
                if miss_within(ticks, t.id, end) {
                    let i = choose|i: int|
                        0 <= i < ticks.len() && ticks[i].time <= end && bool_resolution(
                            ticks[i].env,
                            t.id,
                        ) == Some(false);
                    assert(i != 0);
                    assert(rest[i - 1].time <= end && bool_resolution(rest[i - 1].env, t.id)
                        == Some(false));
                }
            }
            assert(past_window(rest, end) == past_window(ticks, end)) by {
                if past_window(rest, end) {
                    let i = choose|i: int| 0 <= i < rest.len() && rest[i].time > end;
                    assert(ticks[i + 1].time > end);
                }
                if past_window(ticks, end) {
                    let i = choose|i: int| 0 <= i < ticks.len() && ticks[i].time > end;
                    assert(i != 0);
                    assert(rest[i - 1].time > end);
                }
            }
        }
    }
}

/// Within-bound semantics of `always`: over a run whose ticks resolve the
/// thunk to plain truth values with never-decreasing timestamps,
/// `always(φ).within(d)` turns false exactly when a tick inside
/// `[t0, t0 + d]` saw φ false; it turns true exactly when no in-window
/// tick did and some tick fell beyond the window; and it stays residual,
/// leaning true, while the window is open.
pub proof fn lemma_always_within_bound(t: ThunkRef, d: u64, first: Tick, rest: Seq<Tick>, fuel: nat)
    requires
        fuel >= 1,
        first.time + d <= u64::MAX,
        bool_resolution(first.env, t.id) is Some,
        ticks_resolve(rest, t.id),
        ticks_sorted(rest),
    ensures
        ({
            let f = Formula::Always(
                Box::new(Formula::Thunk { function: t, negated: false }),
                Some(d),
            );
            let end = (first.time + d) as u64;
            let miss = bool_resolution(first.env, t.id) == Some(false) || miss_within(
                rest,
                t.id,
                end,
            );
            let r = spec_run(f, first, rest, fuel);
            &&& miss ==> (r matches Ok(v) && v is False)
            &&& (!miss && past_window(rest, end)) ==> (r matches Ok(v) && v is True)
            &&& (!miss && !past_window(rest, end)) ==> (r matches Ok(v) && (v matches
                Value::Residual(res) && crate::ltl::spec_stop_default(res) is True))
        }),
{
    let f = Formula::Always(Box::new(Formula::Thunk { function: t, negated: false }), Some(d));
    let end = (first.time + d) as u64;
    lemma_thunk_tick(first.env, t, first.time, fuel);
    assert(spec_evaluate(first.env, f, first.time, fuel) == crate::ltl::spec_evaluate_always(
        first.env,
        Formula::Thunk { function: t, negated: false },
        first.time,
        Some(end),
        first.time,
        fuel,
    ));
    if bool_resolution(first.env, t.id) == Some(false) {
    } else {
        assert(spec_evaluate(first.env, f, first.time, fuel) == Ok::<Value, EvalError>(
            Value::Residual(always_residual(t, first.time, end)),
        ));
        lemma_always_continue(t, first.time, end, rest, fuel);
    }
}

/// The joined residual of `(G a) ∧ (G b)` over two thunks.
pub open spec fn paired_always_residual(
    ta: ThunkRef,
    tb: ThunkRef,
    start: Time,
    end: Option<Time>,
) -> Residual {
    Residual::And {
        left: Box::new(
            Residual::Derived(
                Derived::Always {
                    start,
                    end,
                    subformula: Box::new(Formula::Thunk { function: ta, negated: false }),
                },
                Leaning::AssumeTrue,
            ),
        ),
        right: Box::new(
            Residual::Derived(
                Derived::Always {
                    start,
                    end,
                    subformula: Box::new(Formula::Thunk { function: tb, negated: false }),
                },
                Leaning::AssumeTrue,
            ),
        ),
    }
}

/// The fused residual of `G (a ∧ b)` over two thunks.
pub open spec fn fused_always_residual(
    ta: ThunkRef,
    tb: ThunkRef,
    start: Time,
    end: Option<Time>,
) -> Residual {
    Residual::Derived(
        Derived::Always {
            start,
            end,
            subformula: Box::new(
                Formula::And(
                    Box::new(Formula::Thunk { function: ta, negated: false }),
                    Box::new(Formula::Thunk { function: tb, negated: false }),
                ),
            ),
        },
        Leaning::AssumeTrue,
    )
}

/// Whether a window is still open at an instant.
pub open spec fn in_window(end: Option<Time>, time: Time) -> bool {
    match end {
        Some(e) => time <= e,
        None => true,
    }
}

/// Both residual forms of a conjunction under `always` step alike: at
/// every tick they fall together, pass together beyond the window, or
/// both stay open with a true test-end verdict.
proof fn lemma_always_and_continue(
    ta: ThunkRef,
    tb: ThunkRef,
    start: Time,
    end: Option<Time>,
    ticks: Seq<Tick>,
    fuel: nat,
)
    requires
        fuel >= 1,
        ticks_resolve(ticks, ta.id),
        ticks_resolve(ticks, tb.id),
    ensures
        ({
            let fused = spec_continue(
                Value::Residual(fused_always_residual(ta, tb, start, end)),
                ticks,
                fuel,
            );
            let paired = spec_continue(
                Value::Residual(paired_always_residual(ta, tb, start, end)),
                ticks,
                fuel,
            );
            &&& fused matches Ok(v1) && paired matches Ok(v2) && verdict_eq(v1, v2)
        }),
    decreases ticks.len(),
{
    let fused_res = fused_always_residual(ta, tb, start, end);
    let paired_res = paired_always_residual(ta, tb, start, end);
    if ticks.len() == 0 {
        assert(spec_stop_default(fused_res) is True);
        assert(spec_stop_default(*paired_res->And_left) is True);
        assert(spec_stop_default(*paired_res->And_right) is True);
        assert(spec_stop_default(paired_res) is True);
    } else {
        let t0 = ticks[0];
        lemma_thunk_tick(t0.env, ta, t0.time, fuel);
        lemma_thunk_tick(t0.env, tb, t0.time, fuel);
        let fa = Formula::Thunk { function: ta, negated: false };
        let fb = Formula::Thunk { function: tb, negated: false };
        let fused_step = spec_step(t0.env, fused_res, t0.time, fuel);
        let paired_step = spec_step(t0.env, paired_res, t0.time, fuel);
        assert(fused_step == crate::ltl::spec_evaluate_always(
            t0.env,
            Formula::And(Box::new(fa), Box::new(fb)),
            start,
            end,
            t0.time,
            fuel,
        ));
        assert(spec_evaluate(t0.env, Formula::And(Box::new(fa), Box::new(fb)), t0.time, fuel)
            matches Ok(v));
        let left_step = spec_step(
            t0.env,
            Residual::Derived(
                Derived::Always { start, end, subformula: Box::new(fa) },
                Leaning::AssumeTrue,
            ),
            t0.time,
            fuel,
        );
        let right_step = spec_step(
            t0.env,
            Residual::Derived(
                Derived::Always { start, end, subformula: Box::new(fb) },
                Leaning::AssumeTrue,
            ),
            t0.time,
            fuel,
        );
        assert(left_step == crate::ltl::spec_evaluate_always(
            t0.env,
            fa,
            start,
            end,
            t0.time,
            fuel,
        ));
        assert(right_step == crate::ltl::spec_evaluate_always(
            t0.env,
            fb,
            start,
            end,
            t0.time,
            fuel,
        ));
        if !in_window(end, t0.time) {
            assert(fused_step == Ok::<Value, EvalError>(Value::True));
            assert(left_step == Ok::<Value, EvalError>(Value::True));
            assert(right_step == Ok::<Value, EvalError>(Value::True));
            assert(paired_step == Ok::<Value, EvalError>(Value::True));
            assert(spec_continue(Value::Residual(fused_res), ticks, fuel) == spec_continue(
                Value::True,
                ticks.drop_first(),
                fuel,
            ));
            assert(spec_continue(Value::Residual(paired_res), ticks, fuel) == spec_continue(
                Value::True,
                ticks.drop_first(),
                fuel,
            ));
            assert(spec_continue(Value::True, ticks.drop_first(), fuel) == Ok::<
                Value,
                EvalError,
            >(Value::True));
        } else {
            let va = bool_resolution(t0.env, ta.id).unwrap();
            let vb = bool_resolution(t0.env, tb.id).unwrap();
            if va && vb {
                assert(fused_step == Ok::<Value, EvalError>(Value::Residual(fused_res)));
                assert(left_step matches Ok(v) && v is Residual);
                assert(right_step matches Ok(v) && v is Residual);
                assert(paired_step == Ok::<Value, EvalError>(Value::Residual(paired_res)));
                assert(spec_continue(Value::Residual(fused_res), ticks, fuel) == spec_continue(
                    Value::Residual(fused_res),
                    ticks.drop_first(),
                    fuel,
                ));
                assert(spec_continue(Value::Residual(paired_res), ticks, fuel) == spec_continue(
                    Value::Residual(paired_res),
                    ticks.drop_first(),
                    fuel,
                ));
                assert(ticks_resolve(ticks.drop_first(), ta.id)) by {
                    assert(forall|i: int|
                        0 <= i < ticks.drop_first().len() ==> ticks.drop_first()[i] == ticks[i
                            + 1]);
                }
                assert(ticks_resolve(ticks.drop_first(), tb.id)) by {
                    assert(forall|i: int|
                        0 <= i < ticks.drop_first().len() ==> ticks.drop_first()[i] == ticks[i
                            + 1]);
                }
                lemma_always_and_continue(ta, tb, start, end, ticks.drop_first(), fuel);
            } else {
                assert(fused_step matches Ok(v) && v is False);
                assert(paired_step matches Ok(v) && v is False);
                assert(spec_continue(Value::Residual(fused_res), ticks, fuel) == spec_continue(
                    fused_step.unwrap(),
                    ticks.drop_first(),
                    fuel,
                ));
                assert(spec_continue(fused_step.unwrap(), ticks.drop_first(), fuel) == Ok::<
                    Value,
                    EvalError,
                >(fused_step.unwrap()));
                assert(spec_continue(Value::Residual(paired_res), ticks, fuel) == spec_continue(
                    paired_step.unwrap(),
                    ticks.drop_first(),
                    fuel,
                ));
                assert(spec_continue(paired_step.unwrap(), ticks.drop_first(), fuel) == Ok::<
                    Value,
                    EvalError,
                >(paired_step.unwrap()));
            }
        }
    }
}

/// `G (a ∧ b)` and `(G a) ∧ (G b)` run alike, up to witnesses, on every
/// trace whose ticks resolve both thunks to plain truth values.
pub proof fn lemma_always_distributes_over_and(
    ta: ThunkRef,
    tb: ThunkRef,
    bound: Option<u64>,
    first: Tick,
    rest: Seq<Tick>,
    fuel: nat,
)
    requires
        fuel >= 1,
        bound matches Some(d) ==> first.time + d <= u64::MAX,
        bool_resolution(first.env, ta.id) is Some,
        bool_resolution(first.env, tb.id) is Some,
        ticks_resolve(rest, ta.id),
        ticks_resolve(rest, tb.id),
    ensures
        ({
            let fa = Formula::Thunk { function: ta, negated: false };
            let fb = Formula::Thunk { function: tb, negated: false };
            let lhs = spec_run(
                Formula::Always(Box::new(Formula::And(Box::new(fa), Box::new(fb))), bound),
                first,
                rest,
                fuel,
            );
            let rhs = spec_run(
                Formula::And(
                    Box::new(Formula::Always(Box::new(fa), bound)),
                    Box::new(Formula::Always(Box::new(fb), bound)),
                ),
                first,
                rest,
                fuel,
            );
            lhs matches Ok(v1) && rhs matches Ok(v2) && verdict_eq(v1, v2)
        }),
{
    let fa = Formula::Thunk { function: ta, negated: false };
    let fb = Formula::Thunk { function: tb, negated: false };
    let end: Option<Time> = match bound {
        Some(d) => Some((first.time + d) as u64),
        None => None,
    };
    lemma_thunk_tick(first.env, ta, first.time, fuel);
    lemma_thunk_tick(first.env, tb, first.time, fuel);
    let lhs_formula = Formula::Always(Box::new(Formula::And(Box::new(fa), Box::new(fb))), bound);
    let rhs_formula = Formula::And(
        Box::new(Formula::Always(Box::new(fa), bound)),
        Box::new(Formula::Always(Box::new(fb), bound)),
    );
    assert(spec_evaluate(first.env, lhs_formula, first.time, fuel)
        == crate::ltl::spec_evaluate_always(
        first.env,
        Formula::And(Box::new(fa), Box::new(fb)),
        first.time,
        end,
        first.time,
        fuel,
    ));
    assert(spec_evaluate(first.env, Formula::Always(Box::new(fa), bound), first.time, fuel)
        == crate::ltl::spec_evaluate_always(first.env, fa, first.time, end, first.time, fuel));
    assert(spec_evaluate(first.env, Formula::Always(Box::new(fb), bound), first.time, fuel)
        == crate::ltl::spec_evaluate_always(first.env, fb, first.time, end, first.time, fuel));
    let va = bool_resolution(first.env, ta.id).unwrap();
    let vb = bool_resolution(first.env, tb.id).unwrap();
    if va && vb {
        assert(spec_evaluate(first.env, lhs_formula, first.time, fuel) == Ok::<Value, EvalError>(
            Value::Residual(fused_always_residual(ta, tb, first.time, end)),
        ));
        assert(spec_evaluate(first.env, rhs_formula, first.time, fuel) == Ok::<Value, EvalError>(
            Value::Residual(paired_always_residual(ta, tb, first.time, end)),
        ));
        lemma_always_and_continue(ta, tb, first.time, end, rest, fuel);
    } else {
        assert(spec_evaluate(first.env, lhs_formula, first.time, fuel) matches Ok(v) && v
            is False);
        assert(spec_evaluate(first.env, rhs_formula, first.time, fuel) matches Ok(v) && v
            is False);
    }
}

/// The joined residual of `(F a) ∨ (F b)` over two thunks.
pub open spec fn paired_eventually_residual(
    ta: ThunkRef,
    tb: ThunkRef,
    start: Time,
    end: Option<Time>,
) -> Residual {
    Residual::Or {
        left: Box::new(single_eventually_residual(ta, start, end)),
        right: Box::new(single_eventually_residual(tb, start, end)),
    }
}

pub open spec fn single_eventually_residual(t: ThunkRef, start: Time, end: Option<Time>) -> Residual {
    Residual::Derived(
        Derived::Eventually {
            start,
            end,
            subformula: Box::new(Formula::Thunk { function: t, negated: false }),
        },
        Leaning::AssumeFalse(
            crate::ltl::Violation::Eventually {
                subformula: Box::new(Formula::Thunk { function: t, negated: false }),
                reason: crate::ltl::EventuallyViolation::TestEnded,
            },
        ),
    )
}

/// The fused residual of `F (a ∨ b)` over two thunks.
pub open spec fn fused_eventually_residual(
    ta: ThunkRef,
    tb: ThunkRef,
    start: Time,
    end: Option<Time>,
) -> Residual {
    Residual::Derived(
        Derived::Eventually {
            start,
            end,
            subformula: Box::new(
                Formula::Or(
                    Box::new(Formula::Thunk { function: ta, negated: false }),
                    Box::new(Formula::Thunk { function: tb, negated: false }),
                ),
            ),
        },
        Leaning::AssumeFalse(
            crate::ltl::Violation::Eventually {
                subformula: Box::new(
                    Formula::Or(
                        Box::new(Formula::Thunk { function: ta, negated: false }),
                        Box::new(Formula::Thunk { function: tb, negated: false }),
                    ),
                ),
                reason: crate::ltl::EventuallyViolation::TestEnded,
            },
        ),
    )
}

/// Both residual forms of a disjunction under `eventually` step alike.
proof fn lemma_eventually_or_continue(
    ta: ThunkRef,
    tb: ThunkRef,
    start: Time,
    end: Option<Time>,
    ticks: Seq<Tick>,
    fuel: nat,
)
    requires
        fuel >= 1,
        ticks_resolve(ticks, ta.id),
        ticks_resolve(ticks, tb.id),
    ensures
        ({
            let fused = spec_continue(
                Value::Residual(fused_eventually_residual(ta, tb, start, end)),
                ticks,
                fuel,
            );
            let paired = spec_continue(
                Value::Residual(paired_eventually_residual(ta, tb, start, end)),
                ticks,
                fuel,
            );
            &&& fused matches Ok(v1) && paired matches Ok(v2) && verdict_eq(v1, v2)
        }),
    decreases ticks.len(),
{
    let fused_res = fused_eventually_residual(ta, tb, start, end);
    let paired_res = paired_eventually_residual(ta, tb, start, end);
    if ticks.len() == 0 {
        assert(spec_stop_default(fused_res) is False);
        assert(spec_stop_default(*paired_res->Or_left) is False);
        assert(spec_stop_default(*paired_res->Or_right) is False);
        assert(spec_stop_default(paired_res) is False);
    } else {
        let t0 = ticks[0];
        lemma_thunk_tick(t0.env, ta, t0.time, fuel);
        lemma_thunk_tick(t0.env, tb, t0.time, fuel);
        let fa = Formula::Thunk { function: ta, negated: false };
        let fb = Formula::Thunk { function: tb, negated: false };
        let fused_step = spec_step(t0.env, fused_res, t0.time, fuel);
        let paired_step = spec_step(t0.env, paired_res, t0.time, fuel);
        assert(fused_step == crate::ltl::spec_evaluate_eventually(
            t0.env,
            Formula::Or(Box::new(fa), Box::new(fb)),
            start,
            end,
            t0.time,
            fuel,
        ));
        assert(spec_evaluate(t0.env, Formula::Or(Box::new(fa), Box::new(fb)), t0.time, fuel)
            matches Ok(v));
        let left_step = spec_step(t0.env, single_eventually_residual(ta, start, end), t0.time, fuel);
        let right_step = spec_step(
            t0.env,
            single_eventually_residual(tb, start, end),
            t0.time,
            fuel,
        );
        assert(left_step == crate::ltl::spec_evaluate_eventually(
            t0.env,
            fa,
            start,
            end,
            t0.time,
            fuel,
        ));
        assert(right_step == crate::ltl::spec_evaluate_eventually(
            t0.env,
            fb,
            start,
            end,
            t0.time,
            fuel,
        ));
        if !in_window(end, t0.time) {
            assert(fused_step matches Ok(v) && v is False);
            assert(left_step matches Ok(v) && v is False);
            assert(right_step matches Ok(v) && v is False);
            assert(paired_step matches Ok(v) && v is False);
            assert(spec_continue(Value::Residual(fused_res), ticks, fuel) == spec_continue(
                fused_step.unwrap(),
                ticks.drop_first(),
                fuel,
            ));
            assert(spec_continue(fused_step.unwrap(), ticks.drop_first(), fuel) == Ok::<
                Value,
                EvalError,
            >(fused_step.unwrap()));
            assert(spec_continue(Value::Residual(paired_res), ticks, fuel) == spec_continue(
                paired_step.unwrap(),
                ticks.drop_first(),
                fuel,
            ));
            assert(spec_continue(paired_step.unwrap(), ticks.drop_first(), fuel) == Ok::<
                Value,
                EvalError,
            >(paired_step.unwrap()));
        } else {
            let va = bool_resolution(t0.env, ta.id).unwrap();
            let vb = bool_resolution(t0.env, tb.id).unwrap();
            if va || vb {
                assert(fused_step == Ok::<Value, EvalError>(Value::True));
                assert(paired_step == Ok::<Value, EvalError>(Value::True));
                assert(spec_continue(Value::Residual(fused_res), ticks, fuel) == spec_continue(
                    Value::True,
                    ticks.drop_first(),
                    fuel,
                ));
                assert(spec_continue(Value::Residual(paired_res), ticks, fuel) == spec_continue(
                    Value::True,
                    ticks.drop_first(),
                    fuel,
                ));
                assert(spec_continue(Value::True, ticks.drop_first(), fuel) == Ok::<
                    Value,
                    EvalError,
                >(Value::True));
            } else {
                assert(fused_step == Ok::<Value, EvalError>(Value::Residual(fused_res)));
                assert(left_step == Ok::<Value, EvalError>(
                    Value::Residual(single_eventually_residual(ta, start, end)),
                ));
                assert(right_step == Ok::<Value, EvalError>(
                    Value::Residual(single_eventually_residual(tb, start, end)),
                ));
                assert(paired_step == Ok::<Value, EvalError>(Value::Residual(paired_res)));
                assert(spec_continue(Value::Residual(fused_res), ticks, fuel) == spec_continue(
                    Value::Residual(fused_res),
                    ticks.drop_first(),
                    fuel,
                ));
                assert(spec_continue(Value::Residual(paired_res), ticks, fuel) == spec_continue(
                    Value::Residual(paired_res),
                    ticks.drop_first(),
                    fuel,
                ));
                assert(ticks_resolve(ticks.drop_first(), ta.id)) by {
                    assert(forall|i: int|
                        0 <= i < ticks.drop_first().len() ==> ticks.drop_first()[i] == ticks[i
                            + 1]);
                }
                assert(ticks_resolve(ticks.drop_first(), tb.id)) by {
                    assert(forall|i: int|
                        0 <= i < ticks.drop_first().len() ==> ticks.drop_first()[i] == ticks[i
                            + 1]);
                }
                lemma_eventually_or_continue(ta, tb, start, end, ticks.drop_first(), fuel);
            }
        }
    }
}

/// `F (a ∨ b)` and `(F a) ∨ (F b)` run alike, up to witnesses, on every
/// trace whose ticks resolve both thunks to plain truth values.
pub proof fn lemma_eventually_distributes_over_or(
    ta: ThunkRef,
    tb: ThunkRef,
    bound: Option<u64>,
    first: Tick,
    rest: Seq<Tick>,
    fuel: nat,
)
    requires
        fuel >= 1,
        bound matches Some(d) ==> first.time + d <= u64::MAX,
        bool_resolution(first.env, ta.id) is Some,
        bool_resolution(first.env, tb.id) is Some,
        ticks_resolve(rest, ta.id),
        ticks_resolve(rest, tb.id),
    ensures
        ({
            let fa = Formula::Thunk { function: ta, negated: false };
            let fb = Formula::Thunk { function: tb, negated: false };
            let lhs = spec_run(
                Formula::Eventually(Box::new(Formula::Or(Box::new(fa), Box::new(fb))), bound),
                first,
                rest,
                fuel,
            );
            let rhs = spec_run(
                Formula::Or(
                    Box::new(Formula::Eventually(Box::new(fa), bound)),
                    Box::new(Formula::Eventually(Box::new(fb), bound)),
                ),
                first,
                rest,
                fuel,
            );
            lhs matches Ok(v1) && rhs matches Ok(v2) && verdict_eq(v1, v2)
        }),
{
    let fa = Formula::Thunk { function: ta, negated: false };
    let fb = Formula::Thunk { function: tb, negated: false };
    let end: Option<Time> = match bound {
        Some(d) => Some((first.time + d) as u64),
        None => None,
    };
    lemma_thunk_tick(first.env, ta, first.time, fuel);
    lemma_thunk_tick(first.env, tb, first.time, fuel);
    let lhs_formula = Formula::Eventually(
        Box::new(Formula::Or(Box::new(fa), Box::new(fb))),
        bound,
    );
    let rhs_formula = Formula::Or(
        Box::new(Formula::Eventually(Box::new(fa), bound)),
        Box::new(Formula::Eventually(Box::new(fb), bound)),
    );
    assert(spec_evaluate(first.env, lhs_formula, first.time, fuel)
        == crate::ltl::spec_evaluate_eventually(
        first.env,
        Formula::Or(Box::new(fa), Box::new(fb)),
        first.time,
        end,
        first.time,
        fuel,
    ));
    assert(spec_evaluate(first.env, Formula::Eventually(Box::new(fa), bound), first.time, fuel)
        == crate::ltl::spec_evaluate_eventually(
        first.env,
        fa,
        first.time,
        end,
        first.time,
        fuel,
    ));
    assert(spec_evaluate(first.env, Formula::Eventually(Box::new(fb), bound), first.time, fuel)
        == crate::ltl::spec_evaluate_eventually(
        first.env,
        fb,
        first.time,
        end,
        first.time,
        fuel,
    ));
    let va = bool_resolution(first.env, ta.id).unwrap();
    let vb = bool_resolution(first.env, tb.id).unwrap();
    if va || vb {
        assert(spec_evaluate(first.env, lhs_formula, first.time, fuel) == Ok::<Value, EvalError>(
            Value::True,
        ));
        assert(spec_evaluate(first.env, rhs_formula, first.time, fuel) == Ok::<Value, EvalError>(
            Value::True,
        ));
    } else {
        assert(spec_evaluate(first.env, lhs_formula, first.time, fuel) == Ok::<Value, EvalError>(
            Value::Residual(fused_eventually_residual(ta, tb, first.time, end)),
        ));
        assert(spec_evaluate(first.env, rhs_formula, first.time, fuel) == Ok::<Value, EvalError>(
            Value::Residual(paired_eventually_residual(ta, tb, first.time, end)),
        ));
        lemma_eventually_or_continue(ta, tb, first.time, end, rest, fuel);
    }
}

/// The residual family of an unbounded `eventually` over a thunk, nested
/// or not: derived nodes leaning false whose subformula is the thunk or
/// `F` of it, joined by `OrEventually` nodes without a deadline. Stepping
/// stays in the family while the thunk reads false and collapses to true
/// the moment it reads true.
pub open spec fn ff_family(r: Residual, t: ThunkRef) -> bool
    decreases r,
{
    match r {
        Residual::Derived(d, leaning) => match d {
            Derived::Eventually { start, end, subformula } => {
                &&& end is None
                &&& leaning is AssumeFalse
                &&& (*subformula == Formula::Thunk { function: t, negated: false } || *subformula
                    == Formula::Eventually(
                    Box::new(Formula::Thunk { function: t, negated: false }),
                    None,
                ))
            },
            _ => false,
        },
        Residual::OrEventually { subformula, start, end, left, right } => {
            &&& end is None
            &&& ff_family(*left, t)
            &&& ff_family(*right, t)
        },
        _ => false,
    }
}

/// Every member of the family leans false at test end.
proof fn lemma_ff_family_stop(r: Residual, t: ThunkRef)
    requires
        ff_family(r, t),
    ensures
        spec_stop_default(r) is False,
    decreases r,
{
    match r {
        Residual::OrEventually { left, right, .. } => {
            lemma_ff_family_stop(*left, t);
            lemma_ff_family_stop(*right, t);
        },
        _ => {},
    }
}

/// One tick moves the whole family together: true collapses it, false
/// keeps it in the family.
proof fn lemma_ff_family_step(
    r: Residual,
    t: ThunkRef,
    env: Seq<(u64, Formula)>,
    time: Time,
    fuel: nat,
)
    requires
        fuel >= 1,
        ff_family(r, t),
        bool_resolution(env, t.id) is Some,
    ensures
        bool_resolution(env, t.id) == Some(true) ==> spec_step(env, r, time, fuel) == Ok::<
            Value,
            EvalError,
        >(Value::True),
        bool_resolution(env, t.id) == Some(false) ==> (spec_step(env, r, time, fuel) matches Ok(v)
            && (v matches Value::Residual(r2) && ff_family(r2, t))),
    decreases r,
{
    let ft = Formula::Thunk { function: t, negated: false };
    lemma_thunk_tick(env, t, time, fuel);
    match r {
        Residual::Derived(d, leaning) => match d {
            Derived::Eventually { start, end, subformula } => {
                assert(spec_step(env, r, time, fuel) == crate::ltl::spec_evaluate_eventually(
                    env,
                    *subformula,
                    start,
                    end,
                    time,
                    fuel,
                ));
                if *subformula == ft {
                    if bool_resolution(env, t.id) == Some(false) {
                        let r2 = Residual::Derived(
                            Derived::Eventually { start, end, subformula },
                            Leaning::AssumeFalse(
                                crate::ltl::Violation::Eventually {
                                    subformula,
                                    reason: crate::ltl::EventuallyViolation::TestEnded,
                                },
                            ),
                        );
                        assert(spec_step(env, r, time, fuel) == Ok::<Value, EvalError>(
                            Value::Residual(r2),
                        ));
                        assert(ff_family(r2, t));
                    }
                } else {
                    let inner = spec_evaluate(
                        env,
                        Formula::Eventually(Box::new(ft), None),
                        time,
                        fuel,
                    );
                    assert(inner == crate::ltl::spec_evaluate_eventually(
                        env,
                        ft,
                        time,
                        None,
                        time,
                        fuel,
                    ));
                    if bool_resolution(env, t.id) == Some(false) {
                        let leaf = Residual::Derived(
                            Derived::Eventually {
                                start: time,
                                end: None,
                                subformula: Box::new(ft),
                            },
                            Leaning::AssumeFalse(
                                crate::ltl::Violation::Eventually {
                                    subformula: Box::new(ft),
                                    reason: crate::ltl::EventuallyViolation::TestEnded,
                                },
                            ),
                        );
                        assert(inner == Ok::<Value, EvalError>(Value::Residual(leaf)));
                        let again = Residual::Derived(
                            Derived::Eventually { start, end, subformula },
                            Leaning::AssumeFalse(
                                crate::ltl::Violation::Eventually {
                                    subformula,
                                    reason: crate::ltl::EventuallyViolation::TestEnded,
                                },
                            ),
                        );
                        let r2 = Residual::OrEventually {
                            subformula,
                            start,
                            end,
                            left: Box::new(leaf),
                            right: Box::new(again),
                        };
                        assert(spec_step(env, r, time, fuel) == Ok::<Value, EvalError>(
                            Value::Residual(r2),
                        ));
                        assert(ff_family(leaf, t));
                        assert(ff_family(again, t));
                        assert(ff_family(r2, t));
                    }
                }
            },
            _ => {},
        },
        Residual::OrEventually { subformula, start, end, left, right } => {
            lemma_ff_family_step(*left, t, env, time, fuel);
            lemma_ff_family_step(*right, t, env, time, fuel);
            if bool_resolution(env, t.id) == Some(false) {
                let lv = spec_step(env, *left, time, fuel).unwrap()->Residual_0;
                let rv = spec_step(env, *right, time, fuel).unwrap()->Residual_0;
                let r2 = Residual::OrEventually {
                    subformula,
                    start,
                    end,
                    left: Box::new(lv),
                    right: Box::new(rv),
                };
                assert(spec_step(env, r, time, fuel) == Ok::<Value, EvalError>(
                    Value::Residual(r2),
                ));
                assert(ff_family(r2, t));
            }
        },
        _ => {},
    }
}

/// Some tick resolves the thunk to true.
pub open spec fn any_hit(ticks: Seq<Tick>, id: u64) -> bool {
    exists|i: int| 0 <= i < ticks.len() && bool_resolution(ticks[i].env, id) == Some(true)
}

/// Carrying any family member through the ticks gives true exactly when
/// some tick reads the thunk true, else a residual leaning false.
proof fn lemma_ff_family_continue(r: Residual, t: ThunkRef, ticks: Seq<Tick>, fuel: nat)
    requires
        fuel >= 1,
        ff_family(r, t),
        ticks_resolve(ticks, t.id),
    ensures
        ({
            let out = spec_continue(Value::Residual(r), ticks, fuel);
            &&& any_hit(ticks, t.id) ==> out == Ok::<Value, EvalError>(Value::True)
            &&& !any_hit(ticks, t.id) ==> (out matches Ok(v) && (v matches Value::Residual(r2)
                && ff_family(r2, t)))
        }),
    decreases ticks.len(),
{
    if ticks.len() == 0 {
        assert(!any_hit(ticks, t.id));
    } else {
        let t0 = ticks[0];
        let rest = ticks.drop_first();
        assert(bool_resolution(t0.env, t.id) is Some);
        lemma_ff_family_step(r, t, t0.env, t0.time, fuel);
        assert(ticks_resolve(rest, t.id)) by {
            assert(forall|i: int| 0 <= i < rest.len() ==> rest[i] == ticks[i + 1]);
        }
        if bool_resolution(t0.env, t.id) == Some(true) {
            assert(spec_continue(Value::Residual(r), ticks, fuel) == spec_continue(
                Value::True,
                rest,
                fuel,
            ));
            assert(spec_continue(Value::True, rest, fuel) == Ok::<Value, EvalError>(Value::True));
            assert(any_hit(ticks, t.id));
        } else {
            let stepped = spec_step(t0.env, r, t0.time, fuel);
            let r2 = stepped.unwrap()->Residual_0;
            assert(spec_continue(Value::Residual(r), ticks, fuel) == spec_continue(
                Value::Residual(r2),
                rest,
                fuel,
            ));
            lemma_ff_family_continue(r2, t, rest, fuel);
            assert(any_hit(rest, t.id) == any_hit(ticks, t.id)) by {
                if any_hit(rest, t.id) {
                    let i = choose|i: int|
                        0 <= i < rest.len() && bool_resolution(rest[i].env, t.id) == Some(true);
                    assert(bool_resolution(ticks[i + 1].env, t.id) == Some(true));
                }
                if any_hit(ticks, t.id) {
                    let i = choose|i: int|
                        0 <= i < ticks.len() && bool_resolution(ticks[i].env, t.id) == Some(
                            true,
                        );
                    assert(i != 0);
                    assert(bool_resolution(rest[i - 1].env, t.id) == Some(true));
                }
            }
        }
    }
}

/// `F F φ` and `F φ` run alike, up to witnesses, for an unbounded
/// `eventually` over a thunk that every tick resolves to a plain truth
/// value.
pub proof fn lemma_eventually_idempotent(t: ThunkRef, first: Tick, rest: Seq<Tick>, fuel: nat)
    requires
        fuel >= 1,
        bool_resolution(first.env, t.id) is Some,
        ticks_resolve(rest, t.id),
    ensures
        ({
            let ft = Formula::Thunk { function: t, negated: false };
            let once = spec_run(Formula::Eventually(Box::new(ft), None), first, rest, fuel);
            let twice = spec_run(
                Formula::Eventually(Box::new(Formula::Eventually(Box::new(ft), None)), None),
                first,
                rest,
                fuel,
            );
            once matches Ok(v1) && twice matches Ok(v2) && verdict_eq(v1, v2)
        }),
{
    let ft = Formula::Thunk { function: t, negated: false };
    let once_formula = Formula::Eventually(Box::new(ft), None);
    let twice_formula = Formula::Eventually(Box::new(once_formula), None);
    lemma_thunk_tick(first.env, t, first.time, fuel);
    assert(spec_evaluate(first.env, once_formula, first.time, fuel)
        == crate::ltl::spec_evaluate_eventually(
        first.env,
        ft,
        first.time,
        None,
        first.time,
        fuel,
    ));
    assert(spec_evaluate(first.env, twice_formula, first.time, fuel)
        == crate::ltl::spec_evaluate_eventually(
        first.env,
        once_formula,
        first.time,
        None,
        first.time,
        fuel,
    ));
    if bool_resolution(first.env, t.id) == Some(true) {
    } else {
        let leaf = Residual::Derived(
            Derived::Eventually { start: first.time, end: None, subformula: Box::new(ft) },
            Leaning::AssumeFalse(
                crate::ltl::Violation::Eventually {
                    subformula: Box::new(ft),
                    reason: crate::ltl::EventuallyViolation::TestEnded,
                },
            ),
        );
        assert(spec_evaluate(first.env, once_formula, first.time, fuel) == Ok::<Value, EvalError>(
            Value::Residual(leaf),
        ));
        let again = Residual::Derived(
            Derived::Eventually {
                start: first.time,
                end: None,
                subformula: Box::new(once_formula),
            },
            Leaning::AssumeFalse(
                crate::ltl::Violation::Eventually {
                    subformula: Box::new(once_formula),
                    reason: crate::ltl::EventuallyViolation::TestEnded,
                },
            ),
        );
        let nested = Residual::OrEventually {
            subformula: Box::new(once_formula),
            start: first.time,
            end: None,
            left: Box::new(leaf),
            right: Box::new(again),
        };
        assert(spec_evaluate(first.env, twice_formula, first.time, fuel) == Ok::<
            Value,
            EvalError,
        >(Value::Residual(nested)));
        let r1 = leaf;
        let r2 = nested;
        assert(ff_family(r1, t));
        assert(ff_family(leaf, t));
        assert(ff_family(again, t));
        assert(ff_family(r2, t));
        lemma_ff_family_continue(r1, t, rest, fuel);
        lemma_ff_family_continue(r2, t, rest, fuel);
        if !any_hit(rest, t.id) {
            let out1 = spec_continue(Value::Residual(r1), rest, fuel).unwrap()->Residual_0;
            let out2 = spec_continue(Value::Residual(r2), rest, fuel).unwrap()->Residual_0;
            lemma_ff_family_stop(out1, t);
            lemma_ff_family_stop(out2, t);
        }
    }
}

/// The residual family of an unbounded `always` over a thunk, nested or
/// not: derived nodes leaning true whose subformula is the thunk or `G`
/// of it, joined by `AndAlways` nodes without a deadline.
pub open spec fn gg_family(r: Residual, t: ThunkRef) -> bool
    decreases r,
{
    match r {
        Residual::Derived(d, leaning) => match d {
            Derived::Always { start, end, subformula } => {
                &&& end is None
                &&& leaning is AssumeTrue
                &&& (*subformula == Formula::Thunk { function: t, negated: false } || *subformula
                    == Formula::Always(
                    Box::new(Formula::Thunk { function: t, negated: false }),
                    None,
                ))
            },
            _ => false,
        },
        Residual::AndAlways { subformula, start, end, left, right } => {
            &&& end is None
            &&& gg_family(*left, t)
            &&& gg_family(*right, t)
        },
        _ => false,
    }
}

/// Every member of the family leans true at test end.
proof fn lemma_gg_family_stop(r: Residual, t: ThunkRef)
    requires
        gg_family(r, t),
    ensures
        spec_stop_default(r) is True,
    decreases r,
{
    match r {
        Residual::AndAlways { left, right, .. } => {
            lemma_gg_family_stop(*left, t);
            lemma_gg_family_stop(*right, t);
        },
        _ => {},
    }
}

/// One tick moves the whole family together: false fells it, true keeps
/// it in the family.
proof fn lemma_gg_family_step(
    r: Residual,
    t: ThunkRef,
    env: Seq<(u64, Formula)>,
    time: Time,
    fuel: nat,
)
    requires
        fuel >= 1,
        gg_family(r, t),
        bool_resolution(env, t.id) is Some,
    ensures
        bool_resolution(env, t.id) == Some(false) ==> (spec_step(env, r, time, fuel) matches Ok(v)
            && v is False),
        bool_resolution(env, t.id) == Some(true) ==> (spec_step(env, r, time, fuel) matches Ok(v)
            && (v matches Value::Residual(r2) && gg_family(r2, t))),
    decreases r,
{
    let ft = Formula::Thunk { function: t, negated: false };
    lemma_thunk_tick(env, t, time, fuel);
    match r {
        Residual::Derived(d, leaning) => match d {
            Derived::Always { start, end, subformula } => {
                assert(spec_step(env, r, time, fuel) == crate::ltl::spec_evaluate_always(
                    env,
                    *subformula,
                    start,
                    end,
                    time,
                    fuel,
                ));
                if *subformula == ft {
                    if bool_resolution(env, t.id) == Some(true) {
                        let r2 = Residual::Derived(
                            Derived::Always { start, end, subformula },
                            Leaning::AssumeTrue,
                        );
                        assert(spec_step(env, r, time, fuel) == Ok::<Value, EvalError>(
                            Value::Residual(r2),
                        ));
                        assert(gg_family(r2, t));
                    }
                } else {
                    let inner = spec_evaluate(
                        env,
                        Formula::Always(Box::new(ft), None),
                        time,
                        fuel,
                    );
                    assert(inner == crate::ltl::spec_evaluate_always(
                        env,
                        ft,
                        time,
                        None,
                        time,
                        fuel,
                    ));
                    if bool_resolution(env, t.id) == Some(true) {
                        let leaf = Residual::Derived(
                            Derived::Always { start: time, end: None, subformula: Box::new(ft) },
                            Leaning::AssumeTrue,
                        );
                        assert(inner == Ok::<Value, EvalError>(Value::Residual(leaf)));
                        let again = Residual::Derived(
                            Derived::Always { start, end, subformula },
                            Leaning::AssumeTrue,
                        );
                        let r2 = Residual::AndAlways {
                            subformula,
                            start,
                            end,
                            left: Box::new(leaf),
                            right: Box::new(again),
                        };
                        assert(spec_step(env, r, time, fuel) == Ok::<Value, EvalError>(
                            Value::Residual(r2),
                        ));
                        assert(gg_family(leaf, t));
                        assert(gg_family(again, t));
                        assert(gg_family(r2, t));
                    }
                }
            },
            _ => {},
        },
        Residual::AndAlways { subformula, start, end, left, right } => {
            lemma_gg_family_step(*left, t, env, time, fuel);
            lemma_gg_family_step(*right, t, env, time, fuel);
            if bool_resolution(env, t.id) == Some(true) {
                let lv = spec_step(env, *left, time, fuel).unwrap()->Residual_0;
                let rv = spec_step(env, *right, time, fuel).unwrap()->Residual_0;
                let r2 = Residual::AndAlways {
                    subformula,
                    start,
                    end,
                    left: Box::new(lv),
                    right: Box::new(rv),
                };
                assert(spec_step(env, r, time, fuel) == Ok::<Value, EvalError>(
                    Value::Residual(r2),
                ));
                assert(gg_family(r2, t));
            }
        },
        _ => {},
    }
}

/// Some tick resolves the thunk to false.
pub open spec fn any_miss(ticks: Seq<Tick>, id: u64) -> bool {
    exists|i: int| 0 <= i < ticks.len() && bool_resolution(ticks[i].env, id) == Some(false)
}

/// Carrying any family member through the ticks gives false exactly when
/// some tick reads the thunk false, else a residual leaning true.
proof fn lemma_gg_family_continue(r: Residual, t: ThunkRef, ticks: Seq<Tick>, fuel: nat)
    requires
        fuel >= 1,
        gg_family(r, t),
        ticks_resolve(ticks, t.id),
    ensures
        ({
            let out = spec_continue(Value::Residual(r), ticks, fuel);
            &&& any_miss(ticks, t.id) ==> (out matches Ok(v) && v is False)
            &&& !any_miss(ticks, t.id) ==> (out matches Ok(v) && (v matches Value::Residual(r2)
                && gg_family(r2, t)))
        }),
    decreases ticks.len(),
{
    if ticks.len() == 0 {
        assert(!any_miss(ticks, t.id));
    } else {
        let t0 = ticks[0];
        let rest = ticks.drop_first();
        assert(bool_resolution(t0.env, t.id) is Some);
        lemma_gg_family_step(r, t, t0.env, t0.time, fuel);
        assert(ticks_resolve(rest, t.id)) by {
            assert(forall|i: int| 0 <= i < rest.len() ==> rest[i] == ticks[i + 1]);
        }
        if bool_resolution(t0.env, t.id) == Some(false) {
            let stepped = spec_step(t0.env, r, t0.time, fuel);
            assert(spec_continue(Value::Residual(r), ticks, fuel) == spec_continue(
                stepped.unwrap(),
                rest,
                fuel,
            ));
            assert(spec_continue(stepped.unwrap(), rest, fuel) == Ok::<Value, EvalError>(
                stepped.unwrap(),
            ));
            assert(any_miss(ticks, t.id));
        } else {
            let stepped = spec_step(t0.env, r, t0.time, fuel);
            let r2 = stepped.unwrap()->Residual_0;
            assert(spec_continue(Value::Residual(r), ticks, fuel) == spec_continue(
                Value::Residual(r2),
                rest,
                fuel,
            ));
            lemma_gg_family_continue(r2, t, rest, fuel);
            assert(any_miss(rest, t.id) == any_miss(ticks, t.id)) by {
                if any_miss(rest, t.id) {
                    let i = choose|i: int|
                        0 <= i < rest.len() && bool_resolution(rest[i].env, t.id) == Some(false);
                    assert(bool_resolution(ticks[i + 1].env, t.id) == Some(false));
                }
                if any_miss(ticks, t.id) {
                    let i = choose|i: int|
                        0 <= i < ticks.len() && bool_resolution(ticks[i].env, t.id) == Some(
                            false,
                        );
                    assert(i != 0);
                    assert(bool_resolution(rest[i - 1].env, t.id) == Some(false));
                }
            }
        }
    }
}

/// `G G φ` and `G φ` run alike, up to witnesses, for an unbounded
/// `always` over a thunk that every tick resolves to a plain truth value.
pub proof fn lemma_always_idempotent(t: ThunkRef, first: Tick, rest: Seq<Tick>, fuel: nat)
    requires
        fuel >= 1,
        bool_resolution(first.env, t.id) is Some,
        ticks_resolve(rest, t.id),
    ensures
        ({
            let ft = Formula::Thunk { function: t, negated: false };
            let once = spec_run(Formula::Always(Box::new(ft), None), first, rest, fuel);
            let twice = spec_run(
                Formula::Always(Box::new(Formula::Always(Box::new(ft), None)), None),
                first,
                rest,
                fuel,
            );
            once matches Ok(v1) && twice matches Ok(v2) && verdict_eq(v1, v2)
        }),
{
    let ft = Formula::Thunk { function: t, negated: false };
    let once_formula = Formula::Always(Box::new(ft), None);
    let twice_formula = Formula::Always(Box::new(once_formula), None);
    lemma_thunk_tick(first.env, t, first.time, fuel);
    assert(spec_evaluate(first.env, once_formula, first.time, fuel)
        == crate::ltl::spec_evaluate_always(first.env, ft, first.time, None, first.time, fuel));
    assert(spec_evaluate(first.env, twice_formula, first.time, fuel)
        == crate::ltl::spec_evaluate_always(
        first.env,
        once_formula,
        first.time,
        None,
        first.time,
        fuel,
    ));
    if bool_resolution(first.env, t.id) == Some(false) {
    } else {
        let leaf = Residual::Derived(
            Derived::Always { start: first.time, end: None, subformula: Box::new(ft) },
            Leaning::AssumeTrue,
        );
        assert(spec_evaluate(first.env, once_formula, first.time, fuel) == Ok::<Value, EvalError>(
            Value::Residual(leaf),
        ));
        let again = Residual::Derived(
            Derived::Always {
                start: first.time,
                end: None,
                subformula: Box::new(once_formula),
            },
            Leaning::AssumeTrue,
        );
        let nested = Residual::AndAlways {
            subformula: Box::new(once_formula),
            start: first.time,
            end: None,
            left: Box::new(leaf),
            right: Box::new(again),
        };
        assert(spec_evaluate(first.env, twice_formula, first.time, fuel) == Ok::<
            Value,
            EvalError,
        >(Value::Residual(nested)));
        assert(gg_family(leaf, t));
        assert(gg_family(again, t));
        assert(gg_family(nested, t));
        lemma_gg_family_continue(leaf, t, rest, fuel);
        lemma_gg_family_continue(nested, t, rest, fuel);
        if !any_miss(rest, t.id) {
            let out1 = spec_continue(Value::Residual(leaf), rest, fuel).unwrap()->Residual_0;
            let out2 = spec_continue(Value::Residual(nested), rest, fuel).unwrap()->Residual_0;
            lemma_gg_family_stop(out1, t);
            lemma_gg_family_stop(out2, t);
        }
    }
}

} // verus!
