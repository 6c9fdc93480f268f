//! The way of the bodies through a run: each is lowered, and structured where the
//! plan asks for it; a body that fails is counted, and the run goes on.

use crate::driver::{Pass, Plan};
use crate::gast::GExprBody;
use crate::llbc::Tree;
use crate::lower::LowerError;
use crate::lower_body::{body_fails, lowers_to, translate_body, MirDef};
use crate::translate::{structure_shaped, structures_to, StructureError};
use crate::ullbc::Graph;
use vstd::prelude::*;

verus! {

/// What became of the body of a definition.
#[derive(Debug)]
pub enum BodyOutcome {
    /// The definition has no body, or its body stays hidden.
    Opaque,
    /// The body was lowered, and the plan asks for no more.
    Unstructured(GExprBody<Graph>),
    /// The body was lowered and structured.
    Structured(GExprBody<Tree>),
    /// The body was not lowered.
    NotLowered(LowerError),
    /// The body was lowered, and could not be structured.
    NotStructured(StructureError),
}

impl BodyOutcome {
    /// Whether the body failed.
    pub open spec fn failed(self) -> bool {
        self is NotLowered || self is NotStructured
    }

    /// Whether the body failed.
    pub fn is_failure(&self) -> (b: bool)
        ensures
            b == self.failed(),
    {
        match self {
            BodyOutcome::NotLowered(_) => true,
            BodyOutcome::NotStructured(_) => true,
            _ => false,
        }
    }
}

/// Whether `out` is what becomes of the body of the definition with `arg_count`
/// arguments under the plan: it is lowered at the level of the plan, and what
/// lowering gives is structured where the plan holds that step.
pub open spec fn becomes(def: MirDef, arg_count: usize, plan: Plan, out: BodyOutcome) -> bool {
    let structuring = plan.steps@.contains(Pass::ReconstructControlFlow);
    match out {
        BodyOutcome::Opaque => def.opaque || def.body is None,
        BodyOutcome::NotLowered(e) => !def.opaque && def.body is Some && body_fails(
            def.body->0,
            plan.mir_level,
            e,
        ),
        BodyOutcome::Unstructured(lowered) => !structuring && !def.opaque && def.body is Some
            && lowers_to(def.body->0, plan.mir_level, arg_count, lowered),
        BodyOutcome::Structured(body) => structuring && !def.opaque && def.body is Some
            && exists|lowered: GExprBody<Graph>| #[trigger]
            lowers_to(def.body->0, plan.mir_level, arg_count, lowered) && structures_to(
                lowered,
                Ok(body),
            ),
        BodyOutcome::NotStructured(e) => structuring && !def.opaque && def.body is Some
            && exists|lowered: GExprBody<Graph>| #[trigger]
            lowers_to(def.body->0, plan.mir_level, arg_count, lowered) && structures_to(
                lowered,
                Err(e),
            ),
    }
}

/// Takes the body of one definition through the run.
pub fn translate_one(def: &MirDef, arg_count: usize, plan: &Plan) -> (out: BodyOutcome)
    ensures
        becomes(*def, arg_count, *plan, out),
{
    let lowered = match translate_body(def, arg_count, plan.mir_level) {
        Ok(Some(lowered)) => lowered,
        Ok(None) => {
            return BodyOutcome::Opaque;
        },
        Err(e) => {
            return BodyOutcome::NotLowered(e);
        },
    };
    if !plan.wants(Pass::ReconstructControlFlow) {
        return BodyOutcome::Unstructured(lowered);
    }
    let ghost given = lowered;
    match structure_shaped(lowered) {
        Ok(body) => {
            proof {
                assert(lowers_to(def.body->0, plan.mir_level, arg_count, given));
            }
            BodyOutcome::Structured(body)
        },
        Err(e) => {
            proof {
                assert(lowers_to(def.body->0, plan.mir_level, arg_count, given));
            }
            BodyOutcome::NotStructured(e)
        },
    }
}

/// How many of the first `n` outcomes are failures.
pub open spec fn failures(outs: Seq<BodyOutcome>, n: int) -> nat
    decreases n,
{
    if n <= 0 {
        0
    } else {
        failures(outs, n - 1) + if outs[n - 1].failed() {
            1nat
        } else {
            0nat
        }
    }
}

/// The count does not depend on the outcomes behind the `n`-th.
proof fn lemma_failures_prefix(a: Seq<BodyOutcome>, b: Seq<BodyOutcome>, n: int)
    requires
        n <= a.len(),
        n <= b.len(),
        forall|i: int| 0 <= i < n ==> a[i] == b[i],
    ensures
        failures(a, n) == failures(b, n),
    decreases n,
{
    if n > 0 {
        lemma_failures_prefix(a, b, n - 1);
    }
}

/// Takes the bodies of all definitions through the run, each with the number of its
/// arguments. A body that fails does not end the run: the outcomes stand in the
/// order of the definitions, and the failures are counted.
pub fn translate_all(defs: &Vec<(MirDef, usize)>, plan: &Plan) -> (r: (Vec<BodyOutcome>, usize))
    ensures
        r.0@.len() == defs@.len(),
        forall|i: int|
            0 <= i < defs@.len() ==> becomes(defs@[i].0, defs@[i].1, *plan, #[trigger] r.0@[i]),
        r.1 == failures(r.0@, r.0@.len() as int),
{
    let mut outs: Vec<BodyOutcome> = Vec::new();
    let mut failed: usize = 0;
    let mut i: usize = 0;
    while i < defs.len()
        invariant
            i <= defs@.len(),
            outs@.len() == i,
            forall|k: int|
                0 <= k < i ==> becomes(defs@[k].0, defs@[k].1, *plan, #[trigger] outs@[k]),
            failed == failures(outs@, i as int),
            failed <= i,
        decreases defs@.len() - i,
    {
        let out = translate_one(&defs[i].0, defs[i].1, plan);
        let ghost before = outs@;
        if out.is_failure() {
            failed = failed + 1;
        }
        outs.push(out);
        proof {
            lemma_failures_prefix(before, outs@, i as int);
        }
        i = i + 1;
    }
    (outs, failed)
}

} // verus!
