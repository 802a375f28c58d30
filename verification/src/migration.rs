//! The migration chain: the steps that the owner of a type supplies, applied
//! one after the other from the version that was read to the newest.

use vstd::prelude::*;
use crate::error::{DecodeError, DecodeErrorView};
use crate::registry::Registry;
use crate::schema::SchemaView;
use crate::shape::{check_snapshot, conforms_at};
use crate::value::{Value, ValueView};

verus! {

/// The mathematical content of what a step returns.
pub open spec fn outcome_view(outcome: Result<Value, String>) -> Result<ValueView, Seq<char>> {
    match outcome {
        Ok(next) => Ok(next@),
        Err(reason) => Err(reason@),
    }
}

/// The mathematical content of what a decode call returns.
pub open spec fn decoded_view(r: Result<Value, DecodeError>) -> Result<ValueView, DecodeErrorView> {
    match r {
        Ok(x) => Ok(x@),
        Err(e) => Err(e@),
    }
}

/// The steps may be called for every type of the registry and every version
/// of it but the newest, with any snapshot of that version.
pub open spec fn steps_callable<F: Fn(&str, u32, Value) -> Result<Value, String>>(
    types: Seq<SchemaView>,
    steps: F,
) -> bool {
    forall|t: int, name: &str, from: u32, snapshot: Value|
        0 <= t < types.len() && name@ == types[t].name && 1 <= from < types[t].max_version() && #[trigger] conforms_at(
            types,
            t,
            from,
            snapshot@,
        ) ==> #[trigger] steps.requires((name, from, snapshot))
}

/// The steps are functions: what they return depends on the content of the
/// name, on the version and on the content of the snapshot, and on nothing
/// else.
pub open spec fn steps_deterministic<F: Fn(&str, u32, Value) -> Result<Value, String>>(steps: F) -> bool {
    forall|n1: &str, n2: &str, from: u32, s1: Value, s2: Value, r1: Result<Value, String>, r2: Result<Value, String>|
        n1@ == n2@ && s1@ == s2@ && #[trigger] steps.ensures((n1, from, s1), r1) && #[trigger] steps.ensures(
            (n2, from, s2),
            r2,
        ) ==> outcome_view(r1) == outcome_view(r2)
}

/// What the step from version `from` of the type called `name` returns for
/// `snapshot`.
pub open spec fn step_spec<F: Fn(&str, u32, Value) -> Result<Value, String>>(
    steps: F,
    name: Seq<char>,
    from: u32,
    snapshot: ValueView,
) -> Result<ValueView, Seq<char>> {
    let call = choose|call: (&str, Value, Result<Value, String>)|
        call.0@ == name && call.1@ == snapshot && steps.ensures((call.0, from, call.1), call.2);
    outcome_view(call.2)
}

/// What becomes of the outcome of the step from version `from` of type `t`:
/// a failure is passed on with its reason, and a value is accepted if it is a
/// snapshot of the next version.
pub open spec fn step_accepted(
    types: Seq<SchemaView>,
    t: int,
    from: u32,
    outcome: Result<ValueView, Seq<char>>,
) -> Result<ValueView, DecodeErrorView> {
    match outcome {
        Ok(next) => if conforms_at(types, t, (from + 1) as u32, next) {
            Ok(next)
        } else {
            Err(DecodeErrorView::MigrationShape { name: types[t].name, from_version: from })
        },
        Err(reason) => Err(
            DecodeErrorView::MigrationFailure { name: types[t].name, from_version: from, reason: reason },
        ),
    }
}

/// The value of the newest version that a snapshot of version `v` of type `t`
/// becomes: the steps from `v`, from `v + 1` and so on up to the last are
/// applied in this order, each to what the one before it returned. A version
/// that the type does not have is refused, and the first step that fails or
/// returns another shape ends the chain.
pub open spec fn migrated<F: Fn(&str, u32, Value) -> Result<Value, String>>(
    types: Seq<SchemaView>,
    steps: F,
    t: int,
    v: u32,
    snapshot: ValueView,
) -> Result<ValueView, DecodeErrorView>
    decreases types[t].max_version() - v,
{
    let schema = types[t];
    if !schema.has_version(v) {
        Err(DecodeErrorView::UnknownVersion { name: schema.name, version: v })
    } else if v == schema.max_version() {
        Ok(snapshot)
    } else {
        match step_accepted(types, t, v, step_spec(steps, schema.name, v, snapshot)) {
            Ok(next) => migrated(types, steps, t, (v + 1) as u32, next),
            Err(e) => Err(e),
        }
    }
}

/// Calls the step from version `from` of the type called `name`.
pub fn run_step<F: Fn(&str, u32, Value) -> Result<Value, String>>(
    steps: &F,
    name: &str,
    from: u32,
    snapshot: Value,
) -> (outcome: Result<Value, String>)
    requires
        steps.requires((name, from, snapshot)),
        steps_deterministic(*steps),
    ensures
        outcome_view(outcome) == step_spec(*steps, name@, from, snapshot@),
{
    let ghost given = snapshot;
    let outcome = steps(name, from, snapshot);
    proof {
        let call = (name, given, outcome);
        assert(call.0@ == name@ && call.1@ == given@ && steps.ensures((call.0, from, call.1), call.2));
    }
    outcome
}

/// Decides what becomes of the outcome of the step from version `from` of
/// type `t`.
pub fn accept_step(registry: &Registry, t: usize, from: u32, outcome: Result<Value, String>) -> (r: Result<
    Value,
    DecodeError,
>)
    requires
        t < registry@.len(),
        from < registry@[t as int].max_version(),
    ensures
        decoded_view(r) == step_accepted(registry@, t as int, from, outcome_view(outcome)),
{
    let schema = registry.schema(t);
    match outcome {
        Ok(next) => {
            if check_snapshot(registry, t, from + 1, &next) {
                Ok(next)
            } else {
                Err(DecodeError::MigrationShape { name: schema.name().clone(), from_version: from })
            }
        },
        Err(reason) => Err(
            DecodeError::MigrationFailure { name: schema.name().clone(), from_version: from, reason },
        ),
    }
}

/// Upgrades a snapshot of version `v` of type `t` to the newest version.
///
/// Each step is handed a snapshot of the version that it is for, and no step
/// is called for a version that the type does not have.
pub fn migrate<F: Fn(&str, u32, Value) -> Result<Value, String>>(
    registry: &Registry,
    steps: &F,
    t: usize,
    v: u32,
    snapshot: Value,
) -> (r: Result<Value, DecodeError>)
    requires
        t < registry@.len(),
        registry@[t as int].has_version(v) ==> conforms_at(registry@, t as int, v, snapshot@),
        steps_callable(registry@, *steps),
        steps_deterministic(*steps),
    ensures
        decoded_view(r) == migrated(registry@, *steps, t as int, v, snapshot@),
{
    let schema = registry.schema(t);
    if !schema.has_version(v) {
        return Err(DecodeError::UnknownVersion { name: schema.name().clone(), version: v });
    }
    let max = schema.max_version();
    let ghost start = snapshot@;
    let mut current = snapshot;
    let mut k: u32 = v;
    while k < max
        invariant
            t < registry@.len(),
            schema@ == registry@[t as int],
            max == schema@.max_version(),
            steps_callable(registry@, *steps),
            steps_deterministic(*steps),
            1 <= k <= max,
            conforms_at(registry@, t as int, k, current@),
            start == snapshot@,
            migrated(registry@, *steps, t as int, v, start) == migrated(registry@, *steps, t as int, k, current@),
        decreases max - k,
    {
        let ghost before = current@;
        let outcome = run_step(steps, schema.name().as_str(), k, current);
        let accepted = accept_step(registry, t, k, outcome);
        assert(migrated(registry@, *steps, t as int, k, before) == match decoded_view(accepted) {
            Ok(next) => migrated(registry@, *steps, t as int, (k + 1) as u32, next),
            Err(e) => Err(e),
        });
        match accepted {
            Ok(next) => {
                current = next;
                k = k + 1;
            },
            Err(e) => {
                return Err(e);
            },
        }
    }
    Ok(current)
}

} // verus!
