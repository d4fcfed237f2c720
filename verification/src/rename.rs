//! The state renamer: places every non-terminal label of the source table
//! into a private namespace so embedded states can never collide with
//! engine-introduced control states.

use vstd::prelude::*;
use vstd::string::StringExecFns;

use crate::model::{is_halt_label, tviews, Transition, TransitionView};

verus! {

/// A non-terminal label gets the namespace prefix; a terminal label passes
/// through unchanged.
pub open spec fn rename_label(prefix: Seq<char>, l: Seq<char>) -> Seq<char> {
    if is_halt_label(l) {
        l
    } else {
        prefix + l
    }
}

/// Renames both labels of one record.
pub open spec fn rename_transition(prefix: Seq<char>, t: TransitionView) -> TransitionView {
    TransitionView {
        current_state: rename_label(prefix, t.current_state),
        new_state: rename_label(prefix, t.new_state),
        ..t
    }
}

/// Renames a whole table.
pub open spec fn rename_table(prefix: Seq<char>, ts: Seq<TransitionView>) -> Seq<TransitionView> {
    ts.map_values(|t: TransitionView| rename_transition(prefix, t))
}

/// Prefixes a non-terminal label; leaves a terminal label unchanged.
fn rename_one(prefix: &str, state: &str) -> (r: String)
    ensures
        r@ == rename_label(prefix@, state@),
{
    if crate::model::is_halt_state(state) {
        state.to_owned()
    } else {
        String::from_str(prefix).concat(state)
    }
}

/// Rewrites every non-terminal label (current and target) of the table by
/// prefixing it with the given namespace; terminal labels pass through.
pub fn rename_original_states(original_transitions: &Vec<Transition>, prefix: &str) -> (r: Vec<
    Transition,
>)
    ensures
        tviews(r@) == rename_table(prefix@, tviews(original_transitions@)),
{
    let mut r: Vec<Transition> = Vec::new();
    let mut i: usize = 0;
    while i < original_transitions.len()
        invariant
            i <= original_transitions.len(),
            r@.len() == i,
            forall|j: int|
                0 <= j < i ==> r@[j]@ == rename_transition(
                    prefix@,
                    original_transitions@[j]@,
                ),
        decreases original_transitions.len() - i,
    {
        let t = &original_transitions[i];
        r.push(
            Transition {
                current_state: rename_one(prefix, t.current_state.as_str()),
                new_state: rename_one(prefix, t.new_state.as_str()),
                current_symbol: t.current_symbol,
                new_symbol: t.new_symbol,
                direction: t.direction,
            },
        );
        i += 1;
    }
    proof {
        assert(tviews(r@) =~= rename_table(prefix@, tviews(original_transitions@)));
    }
    r
}

} // verus!
