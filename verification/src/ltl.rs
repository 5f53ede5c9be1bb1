//! The linear-temporal-logic monitor.
//!
//! User properties are bounded-future LTL formulas over thunks: deferred
//! conditions that the specification VM re-evaluates at every step. The
//! monitor works on formulas in negation normal form, produces three-valued
//! verdicts (true / false with a witness / residual), and steps residuals
//! incrementally as captures arrive.
//!
//! A thunk is referred to by an id; at each step the driver supplies a
//! resolution table mapping every thunk id to the formula the VM returned
//! for it at that instant. Evaluation that meets an id the table does not
//! hold stops with [`EvalError::UnresolvedThunk`], and the driver retries
//! after asking the VM; the evaluator itself is a pure function of the
//! formula, the table and the time.
//!
//! Times are milliseconds since the epoch; bounds are durations in
//! milliseconds, measured from the subformula's birth time.

use vstd::prelude::*;

verus! {

pub type Time = u64;

/// A deferred condition living in the specification VM, named by id. The
/// `pretty` text is its source form, carried for rendering witnesses.
#[derive(Debug)]
pub struct ThunkRef {
    pub id: u64,
    pub pretty: String,
}

/// A formula as parsed from the specification module.
#[derive(Debug)]
pub enum Syntax {
    Pure { value: bool, pretty: String },
    Thunk(ThunkRef),
    Not(Box<Syntax>),
    And(Box<Syntax>, Box<Syntax>),
    Or(Box<Syntax>, Box<Syntax>),
    Implies(Box<Syntax>, Box<Syntax>),
    Next(Box<Syntax>),
    Always(Box<Syntax>, Option<u64>),
    Eventually(Box<Syntax>, Option<u64>),
}

/// A formula in negation normal form, up to thunks: negation survives only
/// as a flag on thunks, whose result is renormalised when it arrives.
/// `Implies` is preserved for better witnesses.
#[derive(Debug)]
pub enum Formula {
    Pure { value: bool, pretty: String },
    Thunk { function: ThunkRef, negated: bool },
    And(Box<Formula>, Box<Formula>),
    Or(Box<Formula>, Box<Formula>),
    Implies(Box<Formula>, Box<Formula>),
    Next(Box<Formula>),
    Always(Box<Formula>, Option<u64>),
    Eventually(Box<Formula>, Option<u64>),
}

/// Push a negation through an NNF formula, dualising as it goes.
pub open spec fn spec_negate(f: Formula) -> Formula
    decreases f,
{
    match f {
        Formula::Pure { value, pretty } => Formula::Pure { value: !value, pretty },
        Formula::Thunk { function, negated } => Formula::Thunk { function, negated: !negated },
        Formula::And(l, r) => Formula::Or(
            Box::new(spec_negate(*l)),
            Box::new(spec_negate(*r)),
        ),
        Formula::Or(l, r) => Formula::And(
            Box::new(spec_negate(*l)),
            Box::new(spec_negate(*r)),
        ),
        Formula::Implies(l, r) => Formula::And(l, Box::new(spec_negate(*r))),
        Formula::Next(s) => Formula::Next(Box::new(spec_negate(*s))),
        Formula::Always(s, bound) => Formula::Eventually(Box::new(spec_negate(*s)), bound),
        Formula::Eventually(s, bound) => Formula::Always(Box::new(spec_negate(*s)), bound),
    }
}

/// Negation normal form of a syntactic formula under a pending negation.
pub open spec fn spec_nnf(s: Syntax, negated: bool) -> Formula
    decreases s,
{
    match s {
        Syntax::Pure { value, pretty } => Formula::Pure {
            value: if negated {
                !value
            } else {
                value
            },
            pretty,
        },
        Syntax::Thunk(function) => Formula::Thunk { function, negated },
        Syntax::Not(inner) => spec_nnf(*inner, !negated),
        Syntax::And(l, r) => {
            if negated {
                Formula::Or(Box::new(spec_nnf(*l, true)), Box::new(spec_nnf(*r, true)))
            } else {
                Formula::And(Box::new(spec_nnf(*l, false)), Box::new(spec_nnf(*r, false)))
            }
        },
        Syntax::Or(l, r) => {
            if negated {
                Formula::And(Box::new(spec_nnf(*l, true)), Box::new(spec_nnf(*r, true)))
            } else {
                Formula::Or(Box::new(spec_nnf(*l, false)), Box::new(spec_nnf(*r, false)))
            }
        },
        Syntax::Implies(l, r) => {
            if negated {
                Formula::And(Box::new(spec_nnf(*l, false)), Box::new(spec_nnf(*r, true)))
            } else {
                Formula::Implies(Box::new(spec_nnf(*l, false)), Box::new(spec_nnf(*r, false)))
            }
        },
        Syntax::Next(inner) => Formula::Next(Box::new(spec_nnf(*inner, negated))),
        Syntax::Always(inner, bound) => {
            if negated {
                Formula::Eventually(Box::new(spec_nnf(*inner, true)), bound)
            } else {
                Formula::Always(Box::new(spec_nnf(*inner, false)), bound)
            }
        },
        Syntax::Eventually(inner, bound) => {
            if negated {
                Formula::Always(Box::new(spec_nnf(*inner, true)), bound)
            } else {
                Formula::Eventually(Box::new(spec_nnf(*inner, false)), bound)
            }
        },
    }
}

impl ThunkRef {
    pub fn duplicate(&self) -> (r: ThunkRef)
        ensures
            r == *self,
    {
        ThunkRef { id: self.id, pretty: self.pretty.clone() }
    }
}

impl Syntax {
    /// Rewrite into negation normal form.
    pub fn nnf(&self) -> (r: Formula)
        ensures
            r == spec_nnf(*self, false),
    {
        self.nnf_under(false)
    }

    fn nnf_under(&self, negated: bool) -> (r: Formula)
        ensures
            r == spec_nnf(*self, negated),
        decreases *self,
    {
        match self {
            Syntax::Pure { value, pretty } => Formula::Pure {
                value: if negated {
                    !*value
                } else {
                    *value
                },
                pretty: pretty.clone(),
            },
            Syntax::Thunk(function) => Formula::Thunk { function: function.duplicate(), negated },
            Syntax::Not(inner) => inner.nnf_under(!negated),
            Syntax::And(l, r) => {
                if negated {
                    Formula::Or(Box::new(l.nnf_under(true)), Box::new(r.nnf_under(true)))
                } else {
                    Formula::And(Box::new(l.nnf_under(false)), Box::new(r.nnf_under(false)))
                }
            },
            Syntax::Or(l, r) => {
                if negated {
                    Formula::And(Box::new(l.nnf_under(true)), Box::new(r.nnf_under(true)))
                } else {
                    Formula::Or(Box::new(l.nnf_under(false)), Box::new(r.nnf_under(false)))
                }
            },
            Syntax::Implies(l, r) => {
                if negated {
                    Formula::And(Box::new(l.nnf_under(false)), Box::new(r.nnf_under(true)))
                } else {
                    Formula::Implies(Box::new(l.nnf_under(false)), Box::new(r.nnf_under(false)))
                }
            },
            Syntax::Next(inner) => Formula::Next(Box::new(inner.nnf_under(negated))),
            Syntax::Always(inner, bound) => {
                if negated {
                    Formula::Eventually(Box::new(inner.nnf_under(true)), *bound)
                } else {
                    Formula::Always(Box::new(inner.nnf_under(false)), *bound)
                }
            },
            Syntax::Eventually(inner, bound) => {
                if negated {
                    Formula::Always(Box::new(inner.nnf_under(true)), *bound)
                } else {
                    Formula::Eventually(Box::new(inner.nnf_under(false)), *bound)
                }
            },
        }
    }
}

impl Formula {
    pub fn duplicate(&self) -> (r: Formula)
        ensures
            r == *self,
        decreases *self,
    {
        match self {
            Formula::Pure { value, pretty } => Formula::Pure {
                value: *value,
                pretty: pretty.clone(),
            },
            Formula::Thunk { function, negated } => Formula::Thunk {
                function: function.duplicate(),
                negated: *negated,
            },
            Formula::And(l, r) => Formula::And(
                Box::new(l.duplicate()),
                Box::new(r.duplicate()),
            ),
            Formula::Or(l, r) => Formula::Or(Box::new(l.duplicate()), Box::new(r.duplicate())),
            Formula::Implies(l, r) => Formula::Implies(
                Box::new(l.duplicate()),
                Box::new(r.duplicate()),
            ),
            Formula::Next(s) => Formula::Next(Box::new(s.duplicate())),
            Formula::Always(s, bound) => Formula::Always(Box::new(s.duplicate()), *bound),
            Formula::Eventually(s, bound) => Formula::Eventually(Box::new(s.duplicate()), *bound),
        }
    }

    /// Push a negation through, in executable form.
    pub fn negate(&self) -> (r: Formula)
        ensures
            r == spec_negate(*self),
        decreases *self,
    {
        match self {
            Formula::Pure { value, pretty } => Formula::Pure {
                value: !*value,
                pretty: pretty.clone(),
            },
            Formula::Thunk { function, negated } => Formula::Thunk {
                function: function.duplicate(),
                negated: !*negated,
            },
            Formula::And(l, r) => Formula::Or(Box::new(l.negate()), Box::new(r.negate())),
            Formula::Or(l, r) => Formula::And(Box::new(l.negate()), Box::new(r.negate())),
            Formula::Implies(l, r) => Formula::And(
                Box::new(l.duplicate()),
                Box::new(r.negate()),
            ),
            Formula::Next(s) => Formula::Next(Box::new(s.negate())),
            Formula::Always(s, bound) => Formula::Eventually(Box::new(s.negate()), *bound),
            Formula::Eventually(s, bound) => Formula::Always(Box::new(s.negate()), *bound),
        }
    }
}

/// Why evaluation could not complete.
#[derive(Clone, Copy, Debug, PartialEq, Eq, Structural)]
pub enum EvalError {
    /// A thunk the resolution table does not cover: the driver must ask
    /// the specification VM for it and retry.
    UnresolvedThunk { id: u64 },
    /// Thunks kept returning formulas holding further thunks beyond the
    /// evaluator's expansion budget.
    ThunkDepthExceeded,
    /// A bound reaches past the representable end of time.
    TimeOverflow,
}

#[derive(Copy, Clone, Debug)]
pub enum EventuallyViolation {
    TimedOut(Time),
    TestEnded,
}

/// A structured witness of a failed property.
#[derive(Debug)]
pub enum Violation {
    False { time: Time, condition: String },
    Eventually { subformula: Box<Formula>, reason: EventuallyViolation },
    Always {
        violation: Box<Violation>,
        subformula: Box<Formula>,
        start: Time,
        end: Option<Time>,
        time: Time,
    },
    And { left: Box<Violation>, right: Box<Violation> },
    Or { left: Box<Violation>, right: Box<Violation> },
    Implies { left: Formula, right: Box<Violation> },
}

/// The default verdict a residual falls to if the run ends now.
#[derive(Debug)]
pub enum Leaning {
    AssumeTrue,
    AssumeFalse(Violation),
}

/// A still-undecided node, carrying enough to be stepped at the next tick.
#[derive(Debug)]
pub enum Residual {
    True,
    False(Violation),
    Derived(Derived, Leaning),
    And { left: Box<Residual>, right: Box<Residual> },
    Or { left: Box<Residual>, right: Box<Residual> },
    Implies { left_formula: Formula, left: Box<Residual>, right: Box<Residual> },
    OrEventually {
        subformula: Box<Formula>,
        start: Time,
        end: Option<Time>,
        left: Box<Residual>,
        right: Box<Residual>,
    },
    AndAlways {
        subformula: Box<Formula>,
        start: Time,
        end: Option<Time>,
        left: Box<Residual>,
        right: Box<Residual>,
    },
}

/// A temporal node that re-evaluates its subformula at each new time.
#[derive(Debug)]
pub enum Derived {
    Once { start: Time, subformula: Box<Formula> },
    Always { start: Time, end: Option<Time>, subformula: Box<Formula> },
    Eventually { start: Time, end: Option<Time>, subformula: Box<Formula> },
}

/// The three-valued verdict lattice.
#[derive(Debug)]
pub enum Value {
    True,
    False(Violation),
    Residual(Residual),
}

/// The verdict a residual collapses to at test end, by its leanings.
#[derive(Debug)]
pub enum StopDefault {
    True,
    False(Violation),
}

impl Violation {
    pub fn duplicate(&self) -> (r: Violation)
        ensures
            r == *self,
        decreases *self,
    {
        match self {
            Violation::False { time, condition } => Violation::False {
                time: *time,
                condition: condition.clone(),
            },
            Violation::Eventually { subformula, reason } => Violation::Eventually {
                subformula: Box::new(subformula.duplicate()),
                reason: *reason,
            },
            Violation::Always { violation, subformula, start, end, time } => Violation::Always {
                violation: Box::new(violation.duplicate()),
                subformula: Box::new(subformula.duplicate()),
                start: *start,
                end: *end,
                time: *time,
            },
            Violation::And { left, right } => Violation::And {
                left: Box::new(left.duplicate()),
                right: Box::new(right.duplicate()),
            },
            Violation::Or { left, right } => Violation::Or {
                left: Box::new(left.duplicate()),
                right: Box::new(right.duplicate()),
            },
            Violation::Implies { left, right } => Violation::Implies {
                left: left.duplicate(),
                right: Box::new(right.duplicate()),
            },
        }
    }
}

/// The thunk resolutions for one instant: what the specification VM
/// returned for each thunk id, already in negation normal form.
#[derive(Debug)]
pub struct ThunkTable {
    pub entries: Vec<(u64, Formula)>,
}

/// Association-list lookup: the first binding of an id wins.
pub open spec fn spec_lookup(env: Seq<(u64, Formula)>, id: u64) -> Option<Formula>
    decreases env.len(),
{
    if env.len() == 0 {
        None
    } else if env[0].0 == id {
        Some(env[0].1)
    } else {
        spec_lookup(env.drop_first(), id)
    }
}

impl ThunkTable {
    pub fn new() -> (r: ThunkTable)
        ensures
            r.entries@ == Seq::<(u64, Formula)>::empty(),
    {
        ThunkTable { entries: Vec::new() }
    }

    pub fn insert(&mut self, id: u64, formula: Formula)
        ensures
            final(self).entries@ == old(self).entries@.push((id, formula)),
    {
        self.entries.push((id, formula));
    }

    fn lookup(&self, id: u64) -> (r: Option<&Formula>)
        ensures
            match r {
                Some(f) => spec_lookup(self.entries@, id) == Some(*f),
                None => spec_lookup(self.entries@, id) is None,
            },
    {
        let mut i: usize = 0;
        proof {
            assert(self.entries@.skip(0) =~= self.entries@);
        }
        while i < self.entries.len()
            invariant
                i <= self.entries@.len(),
                spec_lookup(self.entries@, id) == spec_lookup(self.entries@.skip(i as int), id),
            decreases self.entries@.len() - i,
        {
            proof {
                assert(self.entries@.skip(i as int)[0] == self.entries@[i as int]);
                assert(self.entries@.skip(i as int).drop_first() =~= self.entries@.skip(
                    i as int + 1,
                ));
            }
            if self.entries[i].0 == id {
                return Some(&self.entries[i].1);
            }
            i = i + 1;
        }
        None
    }
}

/// Structural size measures used for termination of evaluation.
pub open spec fn fsize(f: Formula) -> nat
    decreases f,
{
    match f {
        Formula::Pure { .. } => 1,
        Formula::Thunk { .. } => 1,
        Formula::And(l, r) => 1 + fsize(*l) + fsize(*r),
        Formula::Or(l, r) => 1 + fsize(*l) + fsize(*r),
        Formula::Implies(l, r) => 1 + fsize(*l) + fsize(*r),
        Formula::Next(s) => 1 + fsize(*s),
        Formula::Always(s, _) => 2 + fsize(*s),
        Formula::Eventually(s, _) => 2 + fsize(*s),
    }
}

pub open spec fn dsize(d: Derived) -> nat {
    match d {
        Derived::Once { subformula, .. } => fsize(*subformula),
        Derived::Always { subformula, .. } => fsize(*subformula) + 1,
        Derived::Eventually { subformula, .. } => fsize(*subformula) + 1,
    }
}

pub open spec fn rsize(r: Residual) -> nat
    decreases r,
{
    match r {
        Residual::True => 1,
        Residual::False(_) => 1,
        Residual::Derived(d, _) => 1 + dsize(d),
        Residual::And { left, right } => 1 + rsize(*left) + rsize(*right),
        Residual::Or { left, right } => 1 + rsize(*left) + rsize(*right),
        Residual::Implies { left, right, .. } => 1 + rsize(*left) + rsize(*right),
        Residual::OrEventually { left, right, .. } => 1 + rsize(*left) + rsize(*right),
        Residual::AndAlways { left, right, .. } => 1 + rsize(*left) + rsize(*right),
    }
}

/// Conjunction on verdicts: `True` is absorbed, `False` dominates, two
/// falses accumulate, two residuals stay joined.
pub open spec fn spec_and(left: Value, right: Value) -> Value {
    match (left, right) {
        (Value::True, r) => r,
        (l, Value::True) => l,
        (Value::False(lv), Value::False(rv)) => Value::False(
            Violation::And { left: Box::new(lv), right: Box::new(rv) },
        ),
        (_, Value::False(v)) => Value::False(v),
        (Value::False(v), _) => Value::False(v),
        (Value::Residual(l), Value::Residual(r)) => Value::Residual(
            Residual::And { left: Box::new(l), right: Box::new(r) },
        ),
    }
}

/// Disjunction on verdicts, dual to `spec_and`.
pub open spec fn spec_or(left: Value, right: Value) -> Value {
    match (left, right) {
        (Value::False(lv), Value::False(rv)) => Value::False(
            Violation::Or { left: Box::new(lv), right: Box::new(rv) },
        ),
        (Value::True, _) => Value::True,
        (_, Value::True) => Value::True,
        (l, Value::False(_)) => l,
        (Value::False(_), r) => r,
        (Value::Residual(l), Value::Residual(r)) => Value::Residual(
            Residual::Or { left: Box::new(l), right: Box::new(r) },
        ),
    }
}

/// Implication on verdicts; the left formula is kept for rendering.
pub open spec fn spec_implies(left_formula: Formula, left: Value, right: Value) -> Value {
    match (left, right) {
        (Value::False(_), _) => Value::True,
        (Value::True, Value::False(v)) => Value::False(
            Violation::Implies { left: left_formula, right: Box::new(v) },
        ),
        (Value::True, Value::True) => Value::True,
        (Value::True, Value::Residual(r)) => Value::Residual(
            Residual::Implies { left_formula, left: Box::new(Residual::True), right: Box::new(r) },
        ),
        (Value::Residual(_), Value::True) => Value::True,
        (Value::Residual(l), Value::False(v)) => Value::Residual(
            Residual::Implies {
                left_formula,
                left: Box::new(l),
                right: Box::new(Residual::False(v)),
            },
        ),
        (Value::Residual(l), Value::Residual(r)) => Value::Residual(
            Residual::Implies { left_formula, left: Box::new(l), right: Box::new(r) },
        ),
    }
}

/// The `Always` recurrence on two verdicts: the subformula now, and the
/// derived node carrying the rest of the window.
pub open spec fn spec_and_always(
    subformula: Formula,
    start: Time,
    end: Option<Time>,
    time: Time,
    left: Value,
    right: Value,
) -> Value {
    if end matches Some(e) && e < time {
        Value::True
    } else {
        match (left, right) {
            (Value::True, Value::True) => Value::True,
            (Value::False(v), _) => Value::False(
                Violation::Always {
                    violation: Box::new(v),
                    subformula: Box::new(subformula),
                    start,
                    end,
                    time,
                },
            ),
            (_, Value::False(v)) => Value::False(
                Violation::Always {
                    violation: Box::new(v),
                    subformula: Box::new(subformula),
                    start,
                    end,
                    time,
                },
            ),
            (Value::Residual(l), Value::True) => Value::Residual(
                Residual::AndAlways {
                    subformula: Box::new(subformula),
                    start,
                    end,
                    left: Box::new(l),
                    right: Box::new(Residual::True),
                },
            ),
            (Value::True, Value::Residual(r)) => Value::Residual(
                Residual::AndAlways {
                    subformula: Box::new(subformula),
                    start,
                    end,
                    left: Box::new(Residual::True),
                    right: Box::new(r),
                },
            ),
            (Value::Residual(l), Value::Residual(r)) => Value::Residual(
                Residual::AndAlways {
                    subformula: Box::new(subformula),
                    start,
                    end,
                    left: Box::new(l),
                    right: Box::new(r),
                },
            ),
        }
    }
}

/// The `Eventually` recurrence on two verdicts. A left-side violation is
/// dropped deliberately: it is non-evidence, not a witness.
pub open spec fn spec_or_eventually(
    subformula: Formula,
    start: Time,
    end: Option<Time>,
    time: Time,
    left: Value,
    right: Value,
) -> Value {
    if end matches Some(e) && e < time {
        Value::False(
            Violation::Eventually {
                subformula: Box::new(subformula),
                reason: EventuallyViolation::TimedOut(time),
            },
        )
    } else {
        match (left, right) {
            (Value::True, _) => Value::True,
            (_, Value::True) => Value::True,
            (Value::False(_), Value::False(rv)) => Value::False(rv),
            (Value::False(_), Value::Residual(r)) => Value::Residual(r),
            (Value::Residual(l), Value::False(_)) => Value::Residual(l),
            (Value::Residual(l), Value::Residual(r)) => Value::Residual(
                Residual::OrEventually {
                    subformula: Box::new(subformula),
                    start,
                    end,
                    left: Box::new(l),
                    right: Box::new(r),
                },
            ),
        }
    }
}

/// Evaluate a formula at an instant against a resolution table, spending
/// one unit of `fuel` for each thunk expansion.
pub open spec fn spec_evaluate(
    env: Seq<(u64, Formula)>,
    f: Formula,
    time: Time,
    fuel: nat,
) -> Result<Value, EvalError>
    decreases fuel, fsize(f),
{
    match f {
        Formula::Pure { value, pretty } => Ok(
            if value {
                Value::True
            } else {
                Value::False(Violation::False { time, condition: pretty })
            },
        ),
        Formula::Thunk { function, negated } => {
            if fuel == 0 {
                Err(EvalError::ThunkDepthExceeded)
            } else {
                match spec_lookup(env, function.id) {
                    None => Err(EvalError::UnresolvedThunk { id: function.id }),
                    Some(g) => spec_evaluate(
                        env,
                        if negated {
                            spec_negate(g)
                        } else {
                            g
                        },
                        time,
                        (fuel - 1) as nat,
                    ),
                }
            }
        },
        Formula::And(l, r) => {
            match spec_evaluate(env, *l, time, fuel) {
                Err(e) => Err(e),
                Ok(lv) => match spec_evaluate(env, *r, time, fuel) {
                    Err(e) => Err(e),
                    Ok(rv) => Ok(spec_and(lv, rv)),
                },
            }
        },
        Formula::Or(l, r) => {
            match spec_evaluate(env, *l, time, fuel) {
                Err(e) => Err(e),
                Ok(lv) => match spec_evaluate(env, *r, time, fuel) {
                    Err(e) => Err(e),
                    Ok(rv) => Ok(spec_or(lv, rv)),
                },
            }
        },
        Formula::Implies(l, r) => {
            match spec_evaluate(env, *l, time, fuel) {
                Err(e) => Err(e),
                Ok(lv) => match spec_evaluate(env, *r, time, fuel) {
                    Err(e) => Err(e),
                    Ok(rv) => Ok(spec_implies(*l, lv, rv)),
                },
            }
        },
        Formula::Next(s) => Ok(
            Value::Residual(
                Residual::Derived(
                    Derived::Once { start: time, subformula: s },
                    Leaning::AssumeTrue,
                ),
            ),
        ),
        Formula::Always(s, bound) => {
            match bound {
                Some(b) => {
                    if time + b > u64::MAX {
                        Err(EvalError::TimeOverflow)
                    } else {
                        spec_evaluate_always(env, *s, time, Some((time + b) as u64), time, fuel)
                    }
                },
                None => spec_evaluate_always(env, *s, time, None, time, fuel),
            }
        },
        Formula::Eventually(s, bound) => {
            match bound {
                Some(b) => {
                    if time + b > u64::MAX {
                        Err(EvalError::TimeOverflow)
                    } else {
                        spec_evaluate_eventually(env, *s, time, Some((time + b) as u64), time, fuel)
                    }
                },
                None => spec_evaluate_eventually(env, *s, time, None, time, fuel),
            }
        },
    }
}

pub open spec fn spec_evaluate_always(
    env: Seq<(u64, Formula)>,
    subformula: Formula,
    start: Time,
    end: Option<Time>,
    time: Time,
    fuel: nat,
) -> Result<Value, EvalError>
    decreases fuel, fsize(subformula) + 1,
{
    if end matches Some(e) && e < time {
        Ok(Value::True)
    } else {
        let derived = Residual::Derived(
            Derived::Always { start, end, subformula: Box::new(subformula) },
            Leaning::AssumeTrue,
        );
        match spec_evaluate(env, subformula, time, fuel) {
            Err(e) => Err(e),
            Ok(Value::True) => Ok(Value::Residual(derived)),
            Ok(Value::False(v)) => Ok(
                Value::False(
                    Violation::Always {
                        violation: Box::new(v),
                        subformula: Box::new(subformula),
                        start,
                        end,
                        time,
                    },
                ),
            ),
            Ok(Value::Residual(l)) => Ok(
                Value::Residual(
                    Residual::AndAlways {
                        subformula: Box::new(subformula),
                        start,
                        end,
                        left: Box::new(l),
                        right: Box::new(derived),
                    },
                ),
            ),
        }
    }
}

pub open spec fn spec_evaluate_eventually(
    env: Seq<(u64, Formula)>,
    subformula: Formula,
    start: Time,
    end: Option<Time>,
    time: Time,
    fuel: nat,
) -> Result<Value, EvalError>
    decreases fuel, fsize(subformula) + 1,
{
    if end matches Some(e) && e < time {
        Ok(
            Value::False(
                Violation::Eventually {
                    subformula: Box::new(subformula),
                    reason: EventuallyViolation::TimedOut(time),
                },
            ),
        )
    } else {
        let derived = Residual::Derived(
            Derived::Eventually { start, end, subformula: Box::new(subformula) },
            Leaning::AssumeFalse(
                Violation::Eventually {
                    subformula: Box::new(subformula),
                    reason: EventuallyViolation::TestEnded,
                },
            ),
        );
        match spec_evaluate(env, subformula, time, fuel) {
            Err(e) => Err(e),
            Ok(Value::True) => Ok(Value::True),
            Ok(Value::False(_)) => Ok(Value::Residual(derived)),
            Ok(Value::Residual(l)) => Ok(
                Value::Residual(
                    Residual::OrEventually {
                        subformula: Box::new(subformula),
                        start,
                        end,
                        left: Box::new(l),
                        right: Box::new(derived),
                    },
                ),
            ),
        }
    }
}

/// Step a residual at a new instant.
pub open spec fn spec_step(
    env: Seq<(u64, Formula)>,
    r: Residual,
    time: Time,
    fuel: nat,
) -> Result<Value, EvalError>
    decreases fuel, rsize(r),
{
    match r {
        Residual::True => Ok(Value::True),
        Residual::False(v) => Ok(Value::False(v)),
        Residual::And { left, right } => {
            match spec_step(env, *left, time, fuel) {
                Err(e) => Err(e),
                Ok(lv) => match spec_step(env, *right, time, fuel) {
                    Err(e) => Err(e),
                    Ok(rv) => Ok(spec_and(lv, rv)),
                },
            }
        },
        Residual::Or { left, right } => {
            match spec_step(env, *left, time, fuel) {
                Err(e) => Err(e),
                Ok(lv) => match spec_step(env, *right, time, fuel) {
                    Err(e) => Err(e),
                    Ok(rv) => Ok(spec_or(lv, rv)),
                },
            }
        },
        Residual::Implies { left_formula, left, right } => {
            match spec_step(env, *left, time, fuel) {
                Err(e) => Err(e),
                Ok(lv) => match spec_step(env, *right, time, fuel) {
                    Err(e) => Err(e),
                    Ok(rv) => Ok(spec_implies(left_formula, lv, rv)),
                },
            }
        },
        Residual::Derived(d, _) => {
            match d {
                Derived::Once { start, subformula } => spec_evaluate(env, *subformula, time, fuel),
                Derived::Always { start, end, subformula } => spec_evaluate_always(
                    env,
                    *subformula,
                    start,
                    end,
                    time,
                    fuel,
                ),
                Derived::Eventually { start, end, subformula } => spec_evaluate_eventually(
                    env,
                    *subformula,
                    start,
                    end,
                    time,
                    fuel,
                ),
            }
        },
        Residual::OrEventually { subformula, start, end, left, right } => {
            match spec_step(env, *left, time, fuel) {
                Err(e) => Err(e),
                Ok(lv) => match spec_step(env, *right, time, fuel) {
                    Err(e) => Err(e),
                    Ok(rv) => Ok(spec_or_eventually(*subformula, start, end, time, lv, rv)),
                },
            }
        },
        Residual::AndAlways { subformula, start, end, left, right } => {
            match spec_step(env, *left, time, fuel) {
                Err(e) => Err(e),
                Ok(lv) => match spec_step(env, *right, time, fuel) {
                    Err(e) => Err(e),
                    Ok(rv) => Ok(spec_and_always(*subformula, start, end, time, lv, rv)),
                },
            }
        },
    }
}

/// Collapse a residual to its test-end verdict by the leanings.
pub open spec fn spec_stop_default(r: Residual) -> StopDefault
    decreases r,
{
    match r {
        Residual::True => StopDefault::True,
        Residual::False(v) => StopDefault::False(v),
        Residual::Derived(_, leaning) => match leaning {
            Leaning::AssumeTrue => StopDefault::True,
            Leaning::AssumeFalse(v) => StopDefault::False(v),
        },
        Residual::And { left, right } => spec_stop_and(
            spec_stop_default(*left),
            spec_stop_default(*right),
        ),
        Residual::Or { left, right } => spec_stop_or(
            spec_stop_default(*left),
            spec_stop_default(*right),
        ),
        Residual::Implies { left_formula, left, right } => spec_stop_implies(
            left_formula,
            spec_stop_default(*left),
            spec_stop_default(*right),
        ),
        Residual::AndAlways { subformula, start, end, left, right } => spec_stop_and_always(
            *subformula,
            start,
            end,
            spec_stop_default(*left),
            spec_stop_default(*right),
        ),
        Residual::OrEventually { left, right, .. } => spec_stop_or_eventually(
            spec_stop_default(*left),
            spec_stop_default(*right),
        ),
    }
}

pub open spec fn spec_stop_and(left: StopDefault, right: StopDefault) -> StopDefault {
    match (left, right) {
        (StopDefault::True, r) => r,
        (l, StopDefault::True) => l,
        (StopDefault::False(lv), StopDefault::False(rv)) => StopDefault::False(
            Violation::And { left: Box::new(lv), right: Box::new(rv) },
        ),
    }
}

pub open spec fn spec_stop_or(left: StopDefault, right: StopDefault) -> StopDefault {
    match (left, right) {
        (StopDefault::True, _) => StopDefault::True,
        (_, StopDefault::True) => StopDefault::True,
        (StopDefault::False(lv), StopDefault::False(rv)) => StopDefault::False(
            Violation::Or { left: Box::new(lv), right: Box::new(rv) },
        ),
    }
}

pub open spec fn spec_stop_implies(
    left_formula: Formula,
    left: StopDefault,
    right: StopDefault,
) -> StopDefault {
    match (left, right) {
        (StopDefault::False(_), _) => StopDefault::True,
        (StopDefault::True, StopDefault::False(v)) => StopDefault::False(
            Violation::Implies { left: left_formula, right: Box::new(v) },
        ),
        (StopDefault::True, StopDefault::True) => StopDefault::True,
    }
}

pub open spec fn spec_stop_and_always(
    subformula: Formula,
    start: Time,
    end: Option<Time>,
    left: StopDefault,
    right: StopDefault,
) -> StopDefault {
    match (left, right) {
        (StopDefault::True, r) => r,
        (StopDefault::False(v), _) => StopDefault::False(
            Violation::Always {
                violation: Box::new(v),
                subformula: Box::new(subformula),
                start,
                end,
                time: start,
            },
        ),
    }
}

pub open spec fn spec_stop_or_eventually(left: StopDefault, right: StopDefault) -> StopDefault {
    match (left, right) {
        (StopDefault::True, _) => StopDefault::True,
        (_, StopDefault::True) => StopDefault::True,
        (_, StopDefault::False(rv)) => StopDefault::False(rv),
    }
}

pub const DEFAULT_THUNK_FUEL: u64 = 64;

fn eval_and(left: Value, right: Value) -> (v: Value)
    ensures
        v == spec_and(left, right),
{
    match (left, right) {
        (Value::True, r) => r,
        (l, Value::True) => l,
        (Value::False(lv), Value::False(rv)) => Value::False(
            Violation::And { left: Box::new(lv), right: Box::new(rv) },
        ),
        (_, Value::False(v)) => Value::False(v),
        (Value::False(v), _) => Value::False(v),
        (Value::Residual(l), Value::Residual(r)) => Value::Residual(
            Residual::And { left: Box::new(l), right: Box::new(r) },
        ),
    }
}

fn eval_or(left: Value, right: Value) -> (v: Value)
    ensures
        v == spec_or(left, right),
{
    match (left, right) {
        (Value::False(lv), Value::False(rv)) => Value::False(
            Violation::Or { left: Box::new(lv), right: Box::new(rv) },
        ),
        (Value::True, _) => Value::True,
        (_, Value::True) => Value::True,
        (l, Value::False(_)) => l,
        (Value::False(_), r) => r,
        (Value::Residual(l), Value::Residual(r)) => Value::Residual(
            Residual::Or { left: Box::new(l), right: Box::new(r) },
        ),
    }
}

fn eval_implies(left_formula: &Formula, left: Value, right: Value) -> (v: Value)
    ensures
        v == spec_implies(*left_formula, left, right),
{
    match (left, right) {
        (Value::False(_), _) => Value::True,
        (Value::True, Value::False(v)) => Value::False(
            Violation::Implies { left: left_formula.duplicate(), right: Box::new(v) },
        ),
        (Value::True, Value::True) => Value::True,
        (Value::True, Value::Residual(r)) => Value::Residual(
            Residual::Implies {
                left_formula: left_formula.duplicate(),
                left: Box::new(Residual::True),
                right: Box::new(r),
            },
        ),
        (Value::Residual(_), Value::True) => Value::True,
        (Value::Residual(l), Value::False(v)) => Value::Residual(
            Residual::Implies {
                left_formula: left_formula.duplicate(),
                left: Box::new(l),
                right: Box::new(Residual::False(v)),
            },
        ),
        (Value::Residual(l), Value::Residual(r)) => Value::Residual(
            Residual::Implies {
                left_formula: left_formula.duplicate(),
                left: Box::new(l),
                right: Box::new(r),
            },
        ),
    }
}

fn eval_and_always(
    subformula: &Formula,
    start: Time,
    end: Option<Time>,
    time: Time,
    left: Value,
    right: Value,
) -> (v: Value)
    ensures
        v == spec_and_always(*subformula, start, end, time, left, right),
{
    if let Some(e) = end {
        if e < time {
            return Value::True;
        }
    }
    match (left, right) {
        (Value::True, Value::True) => Value::True,
        (Value::False(v), _) => Value::False(
            Violation::Always {
                violation: Box::new(v),
                subformula: Box::new(subformula.duplicate()),
                start,
                end,
                time,
            },
        ),
        (_, Value::False(v)) => Value::False(
            Violation::Always {
                violation: Box::new(v),
                subformula: Box::new(subformula.duplicate()),
                start,
                end,
                time,
            },
        ),
        (Value::Residual(l), Value::True) => Value::Residual(
            Residual::AndAlways {
                subformula: Box::new(subformula.duplicate()),
                start,
                end,
                left: Box::new(l),
                right: Box::new(Residual::True),
            },
        ),
        (Value::True, Value::Residual(r)) => Value::Residual(
            Residual::AndAlways {
                subformula: Box::new(subformula.duplicate()),
                start,
                end,
                left: Box::new(Residual::True),
                right: Box::new(r),
            },
        ),
        (Value::Residual(l), Value::Residual(r)) => Value::Residual(
            Residual::AndAlways {
                subformula: Box::new(subformula.duplicate()),
                start,
                end,
                left: Box::new(l),
                right: Box::new(r),
            },
        ),
    }
}

fn eval_or_eventually(
    subformula: &Formula,
    start: Time,
    end: Option<Time>,
    time: Time,
    left: Value,
    right: Value,
) -> (v: Value)
    ensures
        v == spec_or_eventually(*subformula, start, end, time, left, right),
{
    if let Some(e) = end {
        if e < time {
            return Value::False(
                Violation::Eventually {
                    subformula: Box::new(subformula.duplicate()),
                    reason: EventuallyViolation::TimedOut(time),
                },
            );
        }
    }
    match (left, right) {
        (Value::True, _) => Value::True,
        (_, Value::True) => Value::True,
        (Value::False(_), Value::False(rv)) => Value::False(rv),
        (Value::False(_), Value::Residual(r)) => Value::Residual(r),
        (Value::Residual(l), Value::False(_)) => Value::Residual(l),
        (Value::Residual(l), Value::Residual(r)) => Value::Residual(
            Residual::OrEventually {
                subformula: Box::new(subformula.duplicate()),
                start,
                end,
                left: Box::new(l),
                right: Box::new(r),
            },
        ),
    }
}

/// The incremental evaluator: a resolution table plus an expansion budget.
#[derive(Debug)]
pub struct Evaluator {
    pub table: ThunkTable,
    pub thunk_fuel: u64,
}

impl Evaluator {
    pub fn new(table: ThunkTable) -> (r: Evaluator)
        ensures
            r.table == table,
            r.thunk_fuel == DEFAULT_THUNK_FUEL,
    {
        Evaluator { table, thunk_fuel: DEFAULT_THUNK_FUEL }
    }

    /// Evaluate a formula at `time` against the table.
    pub fn evaluate(&self, formula: &Formula, time: Time) -> (r: Result<Value, EvalError>)
        ensures
            r == spec_evaluate(self.table.entries@, *formula, time, self.thunk_fuel as nat),
    {
        self.evaluate_fuel(formula, time, self.thunk_fuel)
    }

    fn evaluate_fuel(&self, formula: &Formula, time: Time, fuel: u64) -> (r: Result<
        Value,
        EvalError,
    >)
        ensures
            r == spec_evaluate(self.table.entries@, *formula, time, fuel as nat),
        decreases fuel, fsize(*formula),
    {
        match formula {
            Formula::Pure { value, pretty } => {
                if *value {
                    Ok(Value::True)
                } else {
                    Ok(Value::False(Violation::False { time, condition: pretty.clone() }))
                }
            },
            Formula::Thunk { function, negated } => {
                if fuel == 0 {
                    Err(EvalError::ThunkDepthExceeded)
                } else {
                    match self.table.lookup(function.id) {
                        None => Err(EvalError::UnresolvedThunk { id: function.id }),
                        Some(g) => {
                            let h = if *negated {
                                g.negate()
                            } else {
                                g.duplicate()
                            };
                            self.evaluate_fuel(&h, time, fuel - 1)
                        },
                    }
                }
            },
            Formula::And(l, r) => {
                let lv = self.evaluate_fuel(l, time, fuel)?;
                let rv = self.evaluate_fuel(r, time, fuel)?;
                Ok(eval_and(lv, rv))
            },
            Formula::Or(l, r) => {
                let lv = self.evaluate_fuel(l, time, fuel)?;
                let rv = self.evaluate_fuel(r, time, fuel)?;
                Ok(eval_or(lv, rv))
            },
            Formula::Implies(l, r) => {
                let lv = self.evaluate_fuel(l, time, fuel)?;
                let rv = self.evaluate_fuel(r, time, fuel)?;
                Ok(eval_implies(l, lv, rv))
            },
            Formula::Next(s) => Ok(
                Value::Residual(
                    Residual::Derived(
                        Derived::Once { start: time, subformula: Box::new(s.duplicate()) },
                        Leaning::AssumeTrue,
                    ),
                ),
            ),
            Formula::Always(s, bound) => {
                match bound {
                    Some(b) => {
                        if time > u64::MAX - *b {
                            Err(EvalError::TimeOverflow)
                        } else {
                            self.evaluate_always_fuel(s, time, Some(time + *b), time, fuel)
                        }
                    },
                    None => self.evaluate_always_fuel(s, time, None, time, fuel),
                }
            },
            Formula::Eventually(s, bound) => {
                match bound {
                    Some(b) => {
                        if time > u64::MAX - *b {
                            Err(EvalError::TimeOverflow)
                        } else {
                            self.evaluate_eventually_fuel(s, time, Some(time + *b), time, fuel)
                        }
                    },
                    None => self.evaluate_eventually_fuel(s, time, None, time, fuel),
                }
            },
        }
    }

    fn evaluate_always_fuel(
        &self,
        subformula: &Formula,
        start: Time,
        end: Option<Time>,
        time: Time,
        fuel: u64,
    ) -> (r: Result<Value, EvalError>)
        ensures
            r == spec_evaluate_always(
                self.table.entries@,
                *subformula,
                start,
                end,
                time,
                fuel as nat,
            ),
        decreases fuel, fsize(*subformula) + 1,
    {
        if let Some(e) = end {
            if e < time {
                return Ok(Value::True);
            }
        }
        let sub_value = self.evaluate_fuel(subformula, time, fuel)?;
        match sub_value {
            Value::True => Ok(
                Value::Residual(
                    Residual::Derived(
                        Derived::Always { start, end, subformula: Box::new(subformula.duplicate()) },
                        Leaning::AssumeTrue,
                    ),
                ),
            ),
            Value::False(v) => Ok(
                Value::False(
                    Violation::Always {
                        violation: Box::new(v),
                        subformula: Box::new(subformula.duplicate()),
                        start,
                        end,
                        time,
                    },
                ),
            ),
            Value::Residual(l) => Ok(
                Value::Residual(
                    Residual::AndAlways {
                        subformula: Box::new(subformula.duplicate()),
                        start,
                        end,
                        left: Box::new(l),
                        right: Box::new(
                            Residual::Derived(
                                Derived::Always {
                                    start,
                                    end,
                                    subformula: Box::new(subformula.duplicate()),
                                },
                                Leaning::AssumeTrue,
                            ),
                        ),
                    },
                ),
            ),
        }
    }

    fn evaluate_eventually_fuel(
        &self,
        subformula: &Formula,
        start: Time,
        end: Option<Time>,
        time: Time,
        fuel: u64,
    ) -> (r: Result<Value, EvalError>)
        ensures
            r == spec_evaluate_eventually(
                self.table.entries@,
                *subformula,
                start,
                end,
                time,
                fuel as nat,
            ),
        decreases fuel, fsize(*subformula) + 1,
    {
        if let Some(e) = end {
            if e < time {
                return Ok(
                    Value::False(
                        Violation::Eventually {
                            subformula: Box::new(subformula.duplicate()),
                            reason: EventuallyViolation::TimedOut(time),
                        },
                    ),
                );
            }
        }
        let sub_value = self.evaluate_fuel(subformula, time, fuel)?;
        match sub_value {
            Value::True => Ok(Value::True),
            Value::False(_) => Ok(
                Value::Residual(
                    Residual::Derived(
                        Derived::Eventually {
                            start,
                            end,
                            subformula: Box::new(subformula.duplicate()),
                        },
                        Leaning::AssumeFalse(
                            Violation::Eventually {
                                subformula: Box::new(subformula.duplicate()),
                                reason: EventuallyViolation::TestEnded,
                            },
                        ),
                    ),
                ),
            ),
            Value::Residual(l) => Ok(
                Value::Residual(
                    Residual::OrEventually {
                        subformula: Box::new(subformula.duplicate()),
                        start,
                        end,
                        left: Box::new(l),
                        right: Box::new(
                            Residual::Derived(
                                Derived::Eventually {
                                    start,
                                    end,
                                    subformula: Box::new(subformula.duplicate()),
                                },
                                Leaning::AssumeFalse(
                                    Violation::Eventually {
                                        subformula: Box::new(subformula.duplicate()),
                                        reason: EventuallyViolation::TestEnded,
                                    },
                                ),
                            ),
                        ),
                    },
                ),
            ),
        }
    }

    /// Step a residual at a new instant against the table.
    pub fn step(&self, residual: &Residual, time: Time) -> (r: Result<Value, EvalError>)
        ensures
            r == spec_step(self.table.entries@, *residual, time, self.thunk_fuel as nat),
    {
        self.step_fuel(residual, time, self.thunk_fuel)
    }

    fn step_fuel(&self, residual: &Residual, time: Time, fuel: u64) -> (r: Result<
        Value,
        EvalError,
    >)
        ensures
            r == spec_step(self.table.entries@, *residual, time, fuel as nat),
        decreases fuel, rsize(*residual),
    {
        match residual {
            Residual::True => Ok(Value::True),
            Residual::False(v) => Ok(Value::False(v.duplicate())),
            Residual::And { left, right } => {
                let lv = self.step_fuel(left, time, fuel)?;
                let rv = self.step_fuel(right, time, fuel)?;
                Ok(eval_and(lv, rv))
            },
            Residual::Or { left, right } => {
                let lv = self.step_fuel(left, time, fuel)?;
                let rv = self.step_fuel(right, time, fuel)?;
                Ok(eval_or(lv, rv))
            },
            Residual::Implies { left_formula, left, right } => {
                let lv = self.step_fuel(left, time, fuel)?;
                let rv = self.step_fuel(right, time, fuel)?;
                Ok(eval_implies(left_formula, lv, rv))
            },
            Residual::Derived(d, _) => {
                match d {
                    Derived::Once { start, subformula } => self.evaluate_fuel(
                        subformula,
                        time,
                        fuel,
                    ),
                    Derived::Always { start, end, subformula } => self.evaluate_always_fuel(
                        subformula,
                        *start,
                        *end,
                        time,
                        fuel,
                    ),
                    Derived::Eventually { start, end, subformula } => self
                        .evaluate_eventually_fuel(subformula, *start, *end, time, fuel),
                }
            },
            Residual::OrEventually { subformula, start, end, left, right } => {
                let lv = self.step_fuel(left, time, fuel)?;
                let rv = self.step_fuel(right, time, fuel)?;
                Ok(eval_or_eventually(subformula, *start, *end, time, lv, rv))
            },
            Residual::AndAlways { subformula, start, end, left, right } => {
                let lv = self.step_fuel(left, time, fuel)?;
                let rv = self.step_fuel(right, time, fuel)?;
                Ok(eval_and_always(subformula, *start, *end, time, lv, rv))
            },
        }
    }
}

fn stop_and(left: StopDefault, right: StopDefault) -> (r: StopDefault)
    ensures
        r == spec_stop_and(left, right),
{
    match (left, right) {
        (StopDefault::True, r) => r,
        (l, StopDefault::True) => l,
        (StopDefault::False(lv), StopDefault::False(rv)) => StopDefault::False(
            Violation::And { left: Box::new(lv), right: Box::new(rv) },
        ),
    }
}

fn stop_or(left: StopDefault, right: StopDefault) -> (r: StopDefault)
    ensures
        r == spec_stop_or(left, right),
{
    match (left, right) {
        (StopDefault::True, _) => StopDefault::True,
        (_, StopDefault::True) => StopDefault::True,
        (StopDefault::False(lv), StopDefault::False(rv)) => StopDefault::False(
            Violation::Or { left: Box::new(lv), right: Box::new(rv) },
        ),
    }
}

fn stop_implies(left_formula: &Formula, left: StopDefault, right: StopDefault) -> (r: StopDefault)
    ensures
        r == spec_stop_implies(*left_formula, left, right),
{
    match (left, right) {
        (StopDefault::False(_), _) => StopDefault::True,
        (StopDefault::True, StopDefault::False(v)) => StopDefault::False(
            Violation::Implies { left: left_formula.duplicate(), right: Box::new(v) },
        ),
        (StopDefault::True, StopDefault::True) => StopDefault::True,
    }
}

fn stop_and_always(
    subformula: &Formula,
    start: Time,
    end: Option<Time>,
    left: StopDefault,
    right: StopDefault,
) -> (r: StopDefault)
    ensures
        r == spec_stop_and_always(*subformula, start, end, left, right),
{
    match (left, right) {
        (StopDefault::True, r) => r,
        (StopDefault::False(v), _) => StopDefault::False(
            Violation::Always {
                violation: Box::new(v),
                subformula: Box::new(subformula.duplicate()),
                start,
                end,
                time: start,
            },
        ),
    }
}

fn stop_or_eventually(left: StopDefault, right: StopDefault) -> (r: StopDefault)
    ensures
        r == spec_stop_or_eventually(left, right),
{
    match (left, right) {
        (StopDefault::True, _) => StopDefault::True,
        (_, StopDefault::True) => StopDefault::True,
        (_, StopDefault::False(rv)) => StopDefault::False(rv),
    }
}

/// The verdict a residual would get if the run ended now, by its leanings.
pub fn stop_default(residual: &Residual, time: Time) -> (r: Option<StopDefault>)
    ensures
        r == Some(spec_stop_default(*residual)),
    decreases *residual,
{
    match residual {
        Residual::True => Some(StopDefault::True),
        Residual::False(v) => Some(StopDefault::False(v.duplicate())),
        Residual::Derived(_, leaning) => match leaning {
            Leaning::AssumeTrue => Some(StopDefault::True),
            Leaning::AssumeFalse(v) => Some(StopDefault::False(v.duplicate())),
        },
        Residual::And { left, right } => {
            let l = stop_default(left, time).unwrap();
            let r = stop_default(right, time).unwrap();
            Some(stop_and(l, r))
        },
        Residual::Or { left, right } => {
            let l = stop_default(left, time).unwrap();
            let r = stop_default(right, time).unwrap();
            Some(stop_or(l, r))
        },
        Residual::Implies { left_formula, left, right } => {
            let l = stop_default(left, time).unwrap();
            let r = stop_default(right, time).unwrap();
            Some(stop_implies(left_formula, l, r))
        },
        Residual::AndAlways { subformula, start, end, left, right } => {
            let l = stop_default(left, time).unwrap();
            let r = stop_default(right, time).unwrap();
            Some(stop_and_always(subformula, *start, *end, l, r))
        },
        Residual::OrEventually { left, right, .. } => {
            let l = stop_default(left, time).unwrap();
            let r = stop_default(right, time).unwrap();
            Some(stop_or_eventually(l, r))
        },
    }
}

} // verus!
