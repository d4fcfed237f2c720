//! The boundary-primitive library: the three reusable control-state
//! generators (carry sweep, return-head scan, boundary check) that both
//! pipelines build their clusters from.

use vstd::prelude::*;

use crate::model::{tv, tviews, Direction, Transition, TransitionView};

verus! {

/// The four records of a rightward binary-increment sweep over '0'/'1':
/// state `a` propagates no carry, state `b` propagates a carry.
pub open spec fn carry_logic(a: Seq<char>, b: Seq<char>) -> Seq<TransitionView> {
    seq![
        tv(a, '0', '0', Direction::Right, a),
        tv(a, '1', '0', Direction::Right, b),
        tv(b, '0', '1', Direction::Right, a),
        tv(b, '1', '1', Direction::Right, b),
    ]
}

/// Generates the carry-sweep records for the given no-carry/carry state pair.
pub fn generate_carry_logic(carry_0_state: &str, carry_1_state: &str) -> (r: Vec<Transition>)
    ensures
        tviews(r@) == carry_logic(carry_0_state@, carry_1_state@),
{
    let r = vec![
        Transition {
            current_state: carry_0_state.to_owned(),
            current_symbol: '0',
            new_symbol: '0',
            direction: Direction::Right,
            new_state: carry_0_state.to_owned(),
        },
        Transition {
            current_state: carry_0_state.to_owned(),
            current_symbol: '1',
            new_symbol: '0',
            direction: Direction::Right,
            new_state: carry_1_state.to_owned(),
        },
        Transition {
            current_state: carry_1_state.to_owned(),
            current_symbol: '0',
            new_symbol: '1',
            direction: Direction::Right,
            new_state: carry_0_state.to_owned(),
        },
        Transition {
            current_state: carry_1_state.to_owned(),
            current_symbol: '1',
            new_symbol: '1',
            direction: Direction::Right,
            new_state: carry_1_state.to_owned(),
        },
    ];
    proof {
        assert(tviews(r@) =~= carry_logic(carry_0_state@, carry_1_state@));
    }
    r
}

/// The two records of a leftward return scan: in `r`, scan left over any
/// symbol until the left wall, then step right into `target`.
pub open spec fn return_head_logic(r: Seq<char>, target: Seq<char>) -> Seq<TransitionView> {
    seq![
        tv(r, '*', '*', Direction::Left, r),
        tv(r, '#', '#', Direction::Right, target),
    ]
}

/// Generates the return-head records for the given scan state and target.
pub fn generate_return_head_logic(return_state: &str, target_state: &str) -> (r: Vec<Transition>)
    ensures
        tviews(r@) == return_head_logic(return_state@, target_state@),
{
    let r = vec![
        Transition {
            current_state: return_state.to_owned(),
            current_symbol: '*',
            new_symbol: '*',
            direction: Direction::Left,
            new_state: return_state.to_owned(),
        },
        Transition {
            current_state: return_state.to_owned(),
            current_symbol: '#',
            new_symbol: '#',
            direction: Direction::Right,
            new_state: target_state.to_owned(),
        },
    ];
    proof {
        assert(tviews(r@) =~= return_head_logic(return_state@, target_state@));
    }
    r
}

/// The two records of a boundary check: in `check`, any symbol defers in
/// place to `on_any`; the distinguished `on_symbol` writes, moves, and enters
/// the special-case state instead.
pub open spec fn check_logic(
    check: Seq<char>,
    on_any: Seq<char>,
    on_symbol: char,
    on_symbol_new_symbol: char,
    on_symbol_direction: Direction,
    on_symbol_new_state: Seq<char>,
) -> Seq<TransitionView> {
    seq![
        tv(check, '*', '*', Direction::Stay, on_any),
        tv(check, on_symbol, on_symbol_new_symbol, on_symbol_direction, on_symbol_new_state),
    ]
}

/// Generates the boundary-check records for the given parameters.
pub fn generate_check_logic(
    check_state: &str,
    on_any_state: &str,
    on_symbol: char,
    on_symbol_new_symbol: char,
    on_symbol_direction: Direction,
    on_symbol_new_state: &str,
) -> (r: Vec<Transition>)
    ensures
        tviews(r@) == check_logic(
            check_state@,
            on_any_state@,
            on_symbol,
            on_symbol_new_symbol,
            on_symbol_direction,
            on_symbol_new_state@,
        ),
{
    let r = vec![
        Transition {
            current_state: check_state.to_owned(),
            current_symbol: '*',
            new_symbol: '*',
            direction: Direction::Stay,
            new_state: on_any_state.to_owned(),
        },
        Transition {
            current_state: check_state.to_owned(),
            current_symbol: on_symbol,
            new_symbol: on_symbol_new_symbol,
            direction: on_symbol_direction,
            new_state: on_symbol_new_state.to_owned(),
        },
    ];
    proof {
        assert(tviews(r@) =~= check_logic(
            check_state@,
            on_any_state@,
            on_symbol,
            on_symbol_new_symbol,
            on_symbol_direction,
            on_symbol_new_state@,
        ));
    }
    r
}

} // verus!
