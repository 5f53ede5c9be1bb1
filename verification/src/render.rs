//! Human-readable rendering of violation witnesses.
//!
//! A structured witness is flattened into the prose that the driver logs
//! and the trace records: the failing condition, the window it failed in,
//! and the combinator path that led there, with formulas printed back in
//! their combinator form.

use vstd::prelude::*;
use vstd::string::StringExecFns;

use crate::ltl::{EventuallyViolation, Formula, Violation};
use crate::strings::{spec_decimal, u64_to_decimal};

verus! {

/// The text of a formula, in combinator form.
pub open spec fn spec_render_formula(f: Formula) -> Seq<char>
    decreases f,
{
    match f {
        Formula::Pure { value, pretty } => pretty@,
        Formula::Thunk { function, negated } => {
            if negated {
                "not("@ + function.pretty@ + ")"@
            } else {
                function.pretty@
            }
        },
        Formula::And(l, r) => spec_render_formula(*l) + ".and("@ + spec_render_formula(*r) + ")"@,
        Formula::Or(l, r) => spec_render_formula(*l) + ".or("@ + spec_render_formula(*r) + ")"@,
        Formula::Implies(l, r) => spec_render_formula(*l) + ".implies("@ + spec_render_formula(*r)
            + ")"@,
        Formula::Next(s) => "next("@ + spec_render_formula(*s) + ")"@,
        Formula::Always(s, bound) => {
            match bound {
                None => "always("@ + spec_render_formula(*s) + ")"@,
                Some(b) => "always("@ + spec_render_formula(*s) + ").within("@ + spec_decimal(
                    b as nat,
                ) + ", \"milliseconds\")"@,
            }
        },
        Formula::Eventually(s, bound) => {
            match bound {
                None => "eventually("@ + spec_render_formula(*s) + ")"@,
                Some(b) => "eventually("@ + spec_render_formula(*s) + ").within("@ + spec_decimal(
                    b as nat,
                ) + ", \"milliseconds\")"@,
            }
        },
    }
}

/// The text of a violation witness.
pub open spec fn spec_render_violation(v: Violation) -> Seq<char>
    decreases v,
{
    match v {
        Violation::False { time, condition } => "!("@ + condition@ + ")"@,
        Violation::Eventually { subformula, reason } => {
            match reason {
                EventuallyViolation::TimedOut(time) => "timed out at "@ + spec_decimal(time as nat)
                    + "ms: "@ + spec_render_formula(*subformula),
                EventuallyViolation::TestEnded => "failed at test end: "@ + spec_render_formula(
                    *subformula,
                ),
            }
        },
        Violation::And { left, right } => spec_render_violation(*left) + "\n\nand\n\n"@
            + spec_render_violation(*right),
        Violation::Or { left, right } => spec_render_violation(*left) + " or "@
            + spec_render_violation(*right),
        Violation::Implies { left, right } => spec_render_violation(*right) + " since "@
            + spec_render_formula(left),
        Violation::Always { violation, subformula, start, end, time } => {
            match end {
                None => "as of "@ + spec_decimal(start as nat)
                    + "ms, it should always be the case that\n\n"@ + spec_render_formula(
                    *subformula,
                ) + "\n\nbut at "@ + spec_decimal(time as nat) + "ms\n\n"@ + spec_render_violation(
                    *violation,
                ),
                Some(e) => "as of "@ + spec_decimal(start as nat) + "ms and until "@ + spec_decimal(
                    e as nat,
                ) + "ms, it should always be the case that\n\n"@ + spec_render_formula(*subformula)
                    + "\n\nbut at "@ + spec_decimal(time as nat) + "ms\n\n"@
                    + spec_render_violation(*violation),
            }
        },
    }
}

/// Render a formula back into combinator form.
pub fn render_formula(f: &Formula) -> (r: String)
    ensures
        r@ == spec_render_formula(*f),
    decreases *f,
{
    let mut out = String::new();
    match f {
        Formula::Pure { value, pretty } => {
            out.append(pretty);
        },
        Formula::Thunk { function, negated } => {
            if *negated {
                out.append("not(");
                out.append(&function.pretty);
                out.append(")");
            } else {
                out.append(&function.pretty);
            }
        },
        Formula::And(l, r) => {
            let left = render_formula(l);
            let right = render_formula(r);
            out.append(&left);
            out.append(".and(");
            out.append(&right);
            out.append(")");
        },
        Formula::Or(l, r) => {
            let left = render_formula(l);
            let right = render_formula(r);
            out.append(&left);
            out.append(".or(");
            out.append(&right);
            out.append(")");
        },
        Formula::Implies(l, r) => {
            let left = render_formula(l);
            let right = render_formula(r);
            out.append(&left);
            out.append(".implies(");
            out.append(&right);
            out.append(")");
        },
        Formula::Next(s) => {
            let inner = render_formula(s);
            out.append("next(");
            out.append(&inner);
            out.append(")");
        },
        Formula::Always(s, bound) => {
            let inner = render_formula(s);
            out.append("always(");
            out.append(&inner);
            match bound {
                None => {
                    out.append(")");
                },
                Some(b) => {
                    out.append(").within(");
                    let digits = u64_to_decimal(*b);
                    out.append(&digits);
                    out.append(", \"milliseconds\")");
                },
            }
        },
        Formula::Eventually(s, bound) => {
            let inner = render_formula(s);
            out.append("eventually(");
            out.append(&inner);
            match bound {
                None => {
                    out.append(")");
                },
                Some(b) => {
                    out.append(").within(");
                    let digits = u64_to_decimal(*b);
                    out.append(&digits);
                    out.append(", \"milliseconds\")");
                },
            }
        },
    }
    proof {
        assert(out@ =~= spec_render_formula(*f));
    }
    out
}

/// Render a violation witness into the prose the driver reports.
pub fn render_violation(v: &Violation) -> (r: String)
    ensures
        r@ == spec_render_violation(*v),
    decreases *v,
{
    let mut out = String::new();
    match v {
        Violation::False { time, condition } => {
            out.append("!(");
            out.append(condition);
            out.append(")");
        },
        Violation::Eventually { subformula, reason } => {
            match reason {
                EventuallyViolation::TimedOut(time) => {
                    out.append("timed out at ");
                    let digits = u64_to_decimal(*time);
                    out.append(&digits);
                    out.append("ms: ");
                },
                EventuallyViolation::TestEnded => {
                    out.append("failed at test end: ");
                },
            }
            let formula = render_formula(subformula);
            out.append(&formula);
        },
        Violation::And { left, right } => {
            let l = render_violation(left);
            let r2 = render_violation(right);
            out.append(&l);
            out.append("\n\nand\n\n");
            out.append(&r2);
        },
        Violation::Or { left, right } => {
            let l = render_violation(left);
            let r2 = render_violation(right);
            out.append(&l);
            out.append(" or ");
            out.append(&r2);
        },
        Violation::Implies { left, right } => {
            let r2 = render_violation(right);
            let l = render_formula(left);
            out.append(&r2);
            out.append(" since ");
            out.append(&l);
        },
        Violation::Always { violation, subformula, start, end, time } => {
            out.append("as of ");
            let start_digits = u64_to_decimal(*start);
            out.append(&start_digits);
            match end {
                None => {
                    out.append("ms, it should always be the case that\n\n");
                },
                Some(e) => {
                    out.append("ms and until ");
                    let end_digits = u64_to_decimal(*e);
                    out.append(&end_digits);
                    out.append("ms, it should always be the case that\n\n");
                },
            }
            let formula = render_formula(subformula);
            out.append(&formula);
            out.append("\n\nbut at ");
            let time_digits = u64_to_decimal(*time);
            out.append(&time_digits);
            out.append("ms\n\n");
            let inner = render_violation(violation);
            out.append(&inner);
        },
    }
    proof {
        assert(out@ =~= spec_render_violation(*v));
    }
    out
}

} // verus!
