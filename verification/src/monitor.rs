//! Property bookkeeping around the LTL evaluator.
//!
//! Each declared property carries its own verdict state: the initial
//! formula before the first capture, a residual between captures, or a
//! definitive verdict that is simply repeated afterwards. One step
//! evaluates every property at the capture's timestamp against the thunk
//! resolutions of that instant.

use vstd::prelude::*;

use crate::ltl::{
    spec_evaluate, spec_step, EvalError, Evaluator, Formula, Residual, Time, Value, Violation,
};

verus! {

/// A specification module's source, as handed to the loader: the bytes of
/// the (possibly transpiled) module and the path it came from.
#[derive(Clone, Debug)]
pub struct Specification {
    pub contents: Vec<u8>,
    pub path: String,
}

/// Where a property stands between captures.
#[derive(Debug)]
pub enum PropertyState {
    Initial(Formula),
    Residual(Residual),
    DefinitelyTrue,
    DefinitelyFalse(Violation),
}

/// A declared property: its export name and its verdict state.
#[derive(Debug)]
pub struct Property {
    pub name: String,
    pub state: PropertyState,
}

/// A property verdict as reported across the worker boundary: residuals
/// are not surfaced, only that the property is still undecided.
#[derive(Debug)]
pub enum PropertyValue {
    True,
    False(Violation),
    Residual,
}

pub open spec fn spec_property_value(v: Value) -> PropertyValue {
    match v {
        Value::True => PropertyValue::True,
        Value::False(violation) => PropertyValue::False(violation),
        Value::Residual(_) => PropertyValue::Residual,
    }
}

impl PropertyValue {
    pub fn of_value(v: &Value) -> (r: PropertyValue)
        ensures
            r == spec_property_value(*v),
    {
        match v {
            Value::True => PropertyValue::True,
            Value::False(violation) => PropertyValue::False(violation.duplicate()),
            Value::Residual(_) => PropertyValue::Residual,
        }
    }
}

pub open spec fn spec_state_of(v: Value) -> PropertyState {
    match v {
        Value::True => PropertyState::DefinitelyTrue,
        Value::False(violation) => PropertyState::DefinitelyFalse(violation),
        Value::Residual(residual) => PropertyState::Residual(residual),
    }
}

/// One property's step: evaluate or re-step, and settle definitive verdicts.
pub open spec fn spec_property_step(
    env: Seq<(u64, Formula)>,
    state: PropertyState,
    time: Time,
    fuel: nat,
) -> Result<(Value, PropertyState), EvalError> {
    match state {
        PropertyState::Initial(f) => match spec_evaluate(env, f, time, fuel) {
            Err(e) => Err(e),
            Ok(v) => Ok((v, spec_state_of(v))),
        },
        PropertyState::Residual(r) => match spec_step(env, r, time, fuel) {
            Err(e) => Err(e),
            Ok(v) => Ok((v, spec_state_of(v))),
        },
        PropertyState::DefinitelyTrue => Ok((Value::True, PropertyState::DefinitelyTrue)),
        PropertyState::DefinitelyFalse(v) => Ok(
            (Value::False(v), PropertyState::DefinitelyFalse(v)),
        ),
    }
}

/// The outcome of stepping the whole property list: either all verdicts,
/// or the properties as they stand when a step could not complete.
pub enum MonitorOutcome {
    Done { properties: Seq<Property>, verdicts: Seq<Value> },
    Stopped { properties: Seq<Property>, error: EvalError },
}

pub open spec fn spec_monitor_step(
    env: Seq<(u64, Formula)>,
    props: Seq<Property>,
    time: Time,
    fuel: nat,
) -> MonitorOutcome
    decreases props.len(),
{
    if props.len() == 0 {
        MonitorOutcome::Done { properties: Seq::empty(), verdicts: Seq::empty() }
    } else {
        match spec_property_step(env, props[0].state, time, fuel) {
            Err(e) => MonitorOutcome::Stopped { properties: props, error: e },
            Ok((v, st)) => {
                let stepped = Property { name: props[0].name, state: st };
                match spec_monitor_step(env, props.drop_first(), time, fuel) {
                    MonitorOutcome::Done { properties, verdicts } => MonitorOutcome::Done {
                        properties: seq![stepped] + properties,
                        verdicts: seq![v] + verdicts,
                    },
                    MonitorOutcome::Stopped { properties, error } => MonitorOutcome::Stopped {
                        properties: seq![stepped] + properties,
                        error,
                    },
                }
            },
        }
    }
}

/// Stepping never loses or invents properties, and yields one verdict per
/// property when it completes.
pub proof fn lemma_monitor_step_lengths(
    env: Seq<(u64, Formula)>,
    props: Seq<Property>,
    time: Time,
    fuel: nat,
)
    ensures
        match spec_monitor_step(env, props, time, fuel) {
            MonitorOutcome::Done { properties, verdicts } => properties.len() == props.len()
                && verdicts.len() == props.len(),
            MonitorOutcome::Stopped { properties, error } => properties.len() == props.len(),
        },
    decreases props.len(),
{
    if props.len() > 0 {
        match spec_property_step(env, props[0].state, time, fuel) {
            Err(_) => {},
            Ok(_) => {
                lemma_monitor_step_lengths(env, props.drop_first(), time, fuel);
            },
        }
    }
}

fn step_property(evaluator: &Evaluator, state: &PropertyState, time: Time) -> (r: Result<
    (Value, PropertyState),
    EvalError,
>)
    ensures
        r == spec_property_step(evaluator.table.entries@, *state, time, evaluator.thunk_fuel as nat),
{
    match state {
        PropertyState::Initial(f) => {
            match evaluator.evaluate(f, time) {
                Err(e) => Err(e),
                Ok(v) => {
                    match v {
                        Value::True => Ok((Value::True, PropertyState::DefinitelyTrue)),
                        Value::False(violation) => {
                            let st = PropertyState::DefinitelyFalse(violation.duplicate());
                            Ok((Value::False(violation), st))
                        },
                        Value::Residual(residual) => {
                            let both = residual_pair(residual);
                            Ok((Value::Residual(both.0), PropertyState::Residual(both.1)))
                        },
                    }
                },
            }
        },
        PropertyState::Residual(r) => {
            match evaluator.step(r, time) {
                Err(e) => Err(e),
                Ok(v) => {
                    match v {
                        Value::True => Ok((Value::True, PropertyState::DefinitelyTrue)),
                        Value::False(violation) => {
                            let st = PropertyState::DefinitelyFalse(violation.duplicate());
                            Ok((Value::False(violation), st))
                        },
                        Value::Residual(residual) => {
                            let both = residual_pair(residual);
                            Ok((Value::Residual(both.0), PropertyState::Residual(both.1)))
                        },
                    }
                },
            }
        },
        PropertyState::DefinitelyTrue => Ok((Value::True, PropertyState::DefinitelyTrue)),
        PropertyState::DefinitelyFalse(v) => Ok(
            (Value::False(v.duplicate()), PropertyState::DefinitelyFalse(v.duplicate())),
        ),
    }
}

fn residual_pair(r: Residual) -> (pair: (Residual, Residual))
    ensures
        pair.0 == r,
        pair.1 == r,
{
    let copy = duplicate_residual(&r);
    (r, copy)
}

fn duplicate_residual(r: &Residual) -> (copy: Residual)
    ensures
        copy == *r,
    decreases *r,
{
    match r {
        Residual::True => Residual::True,
        Residual::False(v) => Residual::False(v.duplicate()),
        Residual::Derived(d, leaning) => Residual::Derived(
            duplicate_derived(d),
            match leaning {
                crate::ltl::Leaning::AssumeTrue => crate::ltl::Leaning::AssumeTrue,
                crate::ltl::Leaning::AssumeFalse(v) => crate::ltl::Leaning::AssumeFalse(
                    v.duplicate(),
                ),
            },
        ),
        Residual::And { left, right } => Residual::And {
            left: Box::new(duplicate_residual(left)),
            right: Box::new(duplicate_residual(right)),
        },
        Residual::Or { left, right } => Residual::Or {
            left: Box::new(duplicate_residual(left)),
            right: Box::new(duplicate_residual(right)),
        },
        Residual::Implies { left_formula, left, right } => Residual::Implies {
            left_formula: left_formula.duplicate(),
            left: Box::new(duplicate_residual(left)),
            right: Box::new(duplicate_residual(right)),
        },
        Residual::OrEventually { subformula, start, end, left, right } => Residual::OrEventually {
            subformula: Box::new(subformula.duplicate()),
            start: *start,
            end: *end,
            left: Box::new(duplicate_residual(left)),
            right: Box::new(duplicate_residual(right)),
        },
        Residual::AndAlways { subformula, start, end, left, right } => Residual::AndAlways {
            subformula: Box::new(subformula.duplicate()),
            start: *start,
            end: *end,
            left: Box::new(duplicate_residual(left)),
            right: Box::new(duplicate_residual(right)),
        },
    }
}

fn duplicate_derived(d: &crate::ltl::Derived) -> (copy: crate::ltl::Derived)
    ensures
        copy == *d,
{
    match d {
        crate::ltl::Derived::Once { start, subformula } => crate::ltl::Derived::Once {
            start: *start,
            subformula: Box::new(subformula.duplicate()),
        },
        crate::ltl::Derived::Always { start, end, subformula } => crate::ltl::Derived::Always {
            start: *start,
            end: *end,
            subformula: Box::new(subformula.duplicate()),
        },
        crate::ltl::Derived::Eventually { start, end, subformula } => (
        crate::ltl::Derived::Eventually {
            start: *start,
            end: *end,
            subformula: Box::new(subformula.duplicate()),
        }),
    }
}

/// The property verifier: steps every declared property per capture.
#[derive(Debug)]
pub struct Verifier {
    pub properties: Vec<Property>,
}

impl Verifier {
    pub fn new(properties: Vec<Property>) -> (r: Verifier)
        ensures
            r.properties == properties,
    {
        Verifier { properties }
    }

    /// The names of the declared properties, in declaration order.
    pub fn properties(&self) -> (names: Vec<String>)
        ensures
            names@.len() == self.properties@.len(),
            forall|i: int|
                0 <= i < names@.len() ==> names@[i] == self.properties@[i].name,
    {
        let mut names: Vec<String> = Vec::new();
        let mut i: usize = 0;
        while i < self.properties.len()
            invariant
                i <= self.properties@.len(),
                names@.len() == i as int,
                forall|j: int| 0 <= j < i as int ==> names@[j] == self.properties@[j].name,
            decreases self.properties@.len() - i,
        {
            names.push(self.properties[i].name.clone());
            i = i + 1;
        }
        names
    }

    /// Step every property at `time` against this capture's resolutions.
    /// On an incomplete step the error is returned; properties stepped
    /// before it keep their new verdicts, the rest are untouched.
    pub fn step(&mut self, evaluator: &Evaluator, time: Time) -> (r: Result<
        Vec<(String, PropertyValue)>,
        EvalError,
    >)
        ensures
            match spec_monitor_step(
                evaluator.table.entries@,
                old(self).properties@,
                time,
                evaluator.thunk_fuel as nat,
            ) {
                MonitorOutcome::Done { properties, verdicts } => {
                    &&& r matches Ok(results)
                    &&& final(self).properties@ == properties
                    &&& results@.len() == verdicts.len()
                    &&& forall|i: int|
                        0 <= i < results@.len() ==> results@[i].0 == properties[i].name
                            && results@[i].1 == spec_property_value(verdicts[i])
                },
                MonitorOutcome::Stopped { properties, error } => {
                    &&& r matches Err(e) && e == error
                    &&& final(self).properties@ == properties
                },
            },
    {
        let mut props: Vec<Property> = Vec::new();
        core::mem::swap(&mut props, &mut self.properties);
        let (stepped, results, error) = step_each(evaluator, props, time);
        self.properties = stepped;
        match error {
            None => Ok(results),
            Some(e) => Err(e),
        }
    }
}

/// Step a property list front to back, stopping at the first failure.
fn step_each(evaluator: &Evaluator, props: Vec<Property>, time: Time) -> (r: (
    Vec<Property>,
    Vec<(String, PropertyValue)>,
    Option<EvalError>,
))
    ensures
        match spec_monitor_step(
            evaluator.table.entries@,
            props@,
            time,
            evaluator.thunk_fuel as nat,
        ) {
            MonitorOutcome::Done { properties, verdicts } => {
                &&& r.2 is None
                &&& r.0@ == properties
                &&& r.1@.len() == verdicts.len()
                &&& forall|i: int|
                    0 <= i < r.1@.len() ==> r.1@[i].0 == properties[i].name && r.1@[i].1
                        == spec_property_value(verdicts[i])
            },
            MonitorOutcome::Stopped { properties, error } => {
                &&& r.2 == Some(error)
                &&& r.0@ == properties
            },
        },
    decreases props@.len(),
{
    let mut props = props;
    if props.len() == 0 {
        return (props, Vec::new(), None);
    }
    let ghost orig = props@;
    let p = props.remove(0);
    let ghost p0 = p;
    proof {
        assert(props@ =~= orig.drop_first());
    }
    match step_property(evaluator, &p.state, time) {
        Err(e) => {
            let mut out: Vec<Property> = Vec::new();
            out.push(p);
            out.append(&mut props);
            proof {
                assert(out@ =~= orig);
            }
            (out, Vec::new(), Some(e))
        },
        Ok((v, st)) => {
            let ghost vv = v;
            let ghost stv = st;
            let pv = PropertyValue::of_value(&v);
            let ghost pvv = pv;
            let Property { name, state: _ } = p;
            let name_copy = name.clone();
            let stepped = Property { name, state: st };
            let ghost stepped_view = stepped;
            let (mut rest_props, mut rest_results, error) = step_each(evaluator, props, time);
            let ghost rp = rest_props@;
            let ghost rr = rest_results@;
            let mut out: Vec<Property> = Vec::new();
            out.push(stepped);
            out.append(&mut rest_props);
            let ghost nc = name_copy;
            let mut results: Vec<(String, PropertyValue)> = Vec::new();
            results.push((name_copy, pv));
            results.append(&mut rest_results);
            proof {
                let env = evaluator.table.entries@;
                let fuel = evaluator.thunk_fuel as nat;
                lemma_monitor_step_lengths(env, orig, time, fuel);
                lemma_monitor_step_lengths(env, orig.drop_first(), time, fuel);
                assert(p0 == orig[0]);
                assert(spec_property_step(env, orig[0].state, time, fuel) == Ok::<
                    (Value, PropertyState),
                    EvalError,
                >((vv, stv)));
                assert(out@ =~= seq![stepped_view] + rp);
                assert(results@ =~= seq![(nc, pvv)] + rr);
                match spec_monitor_step(env, orig, time, fuel) {
                    MonitorOutcome::Done { properties, verdicts } => {
                        match spec_monitor_step(env, orig.drop_first(), time, fuel) {
                            MonitorOutcome::Done { properties: sp, verdicts: sv } => {
                                assert(properties == seq![stepped_view] + sp);
                                assert(verdicts == seq![vv] + sv);
                                assert(rp == sp);
                                assert(out@ =~= properties);
                                assert(results@.len() == verdicts.len());
                                assert forall|i: int|
                                    0 <= i < results@.len() implies results@[i].0
                                        == properties[i].name && results@[i].1
                                        == spec_property_value(verdicts[i]) by {
                                    if i == 0 {
                                        assert(results@[0].1 == pvv);
                                        assert(results@[0].0 == nc);
                                        assert(nc == stepped_view.name);
                                        assert(properties[0] == stepped_view);
                                        assert(verdicts[0] == vv);
                                    } else {
                                        assert(seq![(nc, pvv)].len() == 1);
                                        assert((seq![(nc, pvv)] + rr)[i] == rr[i - 1]);
                                        assert(results@[i] == rr[i - 1]);
                                        assert((seq![stepped_view] + sp)[i] == sp[i - 1]);
                                        assert(properties[i] == sp[i - 1]);
                                        assert((seq![vv] + sv)[i] == sv[i - 1]);
                                        assert(verdicts[i] == sv[i - 1]);
                                        assert(rr[i - 1].0 == sp[i - 1].name);
                                        assert(rr[i - 1].1 == spec_property_value(sv[i - 1]));
                                    }
                                }
                            },
                            MonitorOutcome::Stopped { .. } => {
                                assert(false);
                            },
                        }
                    },
                    MonitorOutcome::Stopped { properties, error: err2 } => {
                        match spec_monitor_step(env, orig.drop_first(), time, fuel) {
                            MonitorOutcome::Done { .. } => {
                                assert(false);
                            },
                            MonitorOutcome::Stopped { properties: sp, error: serr } => {
                                assert(properties == seq![stepped_view] + sp);
                                assert(err2 == serr);
                                assert(rp == sp);
                                assert(out@ =~= properties);
                            },
                        }
                    },
                }
            }
            (out, results, error)
        },
    }
}

/// The registry of declared extractors: each gets a sequential id, and
/// carries the source text of its extractor function, to be evaluated
/// later inside the paused page.
#[derive(Debug)]
pub struct Extractors {
    pub next_id: u64,
    pub entries: Vec<(u64, String)>,
}

impl Extractors {
    pub open spec fn wf(&self) -> bool {
        &&& self.entries@.len() <= self.next_id
        &&& forall|i: int| 0 <= i < self.entries@.len() ==> (#[trigger] self.entries@[i].0)
            < self.next_id
        &&& forall|i: int, j: int|
            0 <= i < j < self.entries@.len() ==> self.entries@[i].0 < self.entries@[j].0
    }

    pub fn new() -> (r: Extractors)
        ensures
            r.wf(),
            r.entries@ == Seq::<(u64, String)>::empty(),
    {
        Extractors { next_id: 0, entries: Vec::new() }
    }

    /// Register an extractor's function source under a fresh id.
    pub fn register(&mut self, function_source: String) -> (id: u64)
        requires
            old(self).wf(),
            old(self).next_id < u64::MAX,
        ensures
            final(self).wf(),
            id == old(self).next_id,
            final(self).entries@ == old(self).entries@.push((id, function_source)),
            final(self).next_id == old(self).next_id + 1,
    {
        let id = self.next_id;
        self.next_id = self.next_id + 1;
        self.entries.push((id, function_source));
        id
    }

    /// The function source registered under an id, if any.
    pub fn get(&self, id: u64) -> (r: Option<&String>)
        ensures
            match r {
                Some(source) => exists|i: int|
                    0 <= i < self.entries@.len() && self.entries@[i] == (id, *source),
                None => forall|i: int|
                    0 <= i < self.entries@.len() ==> (#[trigger] self.entries@[i]).0 != id,
            },
    {
        let mut i: usize = 0;
        while i < self.entries.len()
            invariant
                i <= self.entries@.len(),
                forall|j: int| 0 <= j < i as int ==> (#[trigger] self.entries@[j]).0 != id,
            decreases self.entries@.len() - i,
        {
            if self.entries[i].0 == id {
                return Some(&self.entries[i].1);
            }
            i = i + 1;
        }
        None
    }

    /// All `(id, function source)` pairs, in registration order.
    pub fn extract_functions(&self) -> (r: Vec<(u64, String)>)
        ensures
            r@.len() == self.entries@.len(),
            forall|i: int| 0 <= i < r@.len() ==> r@[i] == self.entries@[i],
    {
        let mut r: Vec<(u64, String)> = Vec::new();
        let mut i: usize = 0;
        while i < self.entries.len()
            invariant
                i <= self.entries@.len(),
                r@.len() == i as int,
                forall|j: int| 0 <= j < i as int ==> r@[j] == self.entries@[j],
            decreases self.entries@.len() - i,
        {
            let (id, source) = (self.entries[i].0, self.entries[i].1.clone());
            r.push((id, source));
            i = i + 1;
        }
        r
    }
}

} // verus!
