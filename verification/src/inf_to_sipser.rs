//! The Infinite-to-Sipser pipeline: the setup cluster that delimits the
//! simulated region, the per-transition rewrite that routes moves through
//! boundary checks, and the right/left boundary-expansion clusters.

use vstd::prelude::*;
use vstd::string::StringExecFns;

use crate::model::{
    concat_label, contains_label, is_halt_label, is_halt_state, get_next_state, label_views,
    next_state_spec, start_label, tv, tviews, Direction, Transition, TransitionView,
};
use crate::primitives::{
    carry_logic, check_logic, generate_carry_logic, generate_check_logic,
    generate_return_head_logic, return_head_logic,
};

verus! {

/// The check state a Right-moving transition into `s` is routed through.
pub open spec fn check_right_label(s: Seq<char>) -> Seq<char> {
    "check_right_"@ + s
}

/// The state that relocates the right marker one cell further for `s`.
pub open spec fn expand_right_label(s: Seq<char>) -> Seq<char> {
    "expand_right_"@ + s
}

/// The check state a Left-moving transition into `s` is routed through.
pub open spec fn check_left_label(s: Seq<char>) -> Seq<char> {
    "check_left_"@ + s
}

/// The state that starts the rightward content shift for `s`.
pub open spec fn shift_start_label(s: Seq<char>) -> Seq<char> {
    "shift_start_"@ + s
}

/// The no-carry state of the shift sweep for `s`.
pub open spec fn shift_carry_0_label(s: Seq<char>) -> Seq<char> {
    "shift_carry_0_"@ + s
}

/// The carry state of the shift sweep for `s`.
pub open spec fn shift_carry_1_label(s: Seq<char>) -> Seq<char> {
    "shift_carry_1_"@ + s
}

/// The state that rewrites the right marker after the shift for `s`.
pub open spec fn shift_write_end_label(s: Seq<char>) -> Seq<char> {
    "shift_write_end_"@ + s
}

/// The return scan of the shift for `s`.
pub open spec fn shift_return_label(s: Seq<char>) -> Seq<char> {
    "shift_return_"@ + s
}

/// The setup cluster: the start state writes the left marker, carry-sweeps
/// any existing content one cell rightward, appends the right marker, and
/// returns the head to the renamed embedded start state.
pub open spec fn setup_transitions_spec(renamed_start: Seq<char>) -> Seq<TransitionView> {
    seq![
        tv(start_label(), '0', '#', Direction::Right, "q_carry_0"@),
        tv(start_label(), '1', '#', Direction::Right, "q_carry_1"@),
    ] + carry_logic("q_carry_0"@, "q_carry_1"@) + seq![
        tv("q_carry_0"@, '_', '0', Direction::Right, "q_write_end_marker"@),
        tv("q_carry_1"@, '_', '1', Direction::Right, "q_write_end_marker"@),
        tv("q_write_end_marker"@, '_', '$', Direction::Left, "q_return_head"@),
    ] + return_head_logic("q_return_head"@, renamed_start) + seq![
        tv(start_label(), '_', '#', Direction::Right, "q_write_end_marker_empty"@),
        tv("q_write_end_marker_empty"@, '_', '$', Direction::Left, renamed_start),
    ]
}

/// Generates the setup cluster for the given renamed start state.
pub fn generate_setup_transitions(renamed_start_state: &str) -> (r: Vec<Transition>)
    ensures
        tviews(r@) == setup_transitions_spec(renamed_start_state@),
{
    let mut r = vec![
        Transition {
            current_state: String::from_str("0"),
            current_symbol: '0',
            new_symbol: '#',
            direction: Direction::Right,
            new_state: String::from_str("q_carry_0"),
        },
        Transition {
            current_state: String::from_str("0"),
            current_symbol: '1',
            new_symbol: '#',
            direction: Direction::Right,
            new_state: String::from_str("q_carry_1"),
        },
    ];
    let mut carry = generate_carry_logic("q_carry_0", "q_carry_1");
    r.append(&mut carry);
    let mut mid = vec![
        Transition {
            current_state: String::from_str("q_carry_0"),
            current_symbol: '_',
            new_symbol: '0',
            direction: Direction::Right,
            new_state: String::from_str("q_write_end_marker"),
        },
        Transition {
            current_state: String::from_str("q_carry_1"),
            current_symbol: '_',
            new_symbol: '1',
            direction: Direction::Right,
            new_state: String::from_str("q_write_end_marker"),
        },
        Transition {
            current_state: String::from_str("q_write_end_marker"),
            current_symbol: '_',
            new_symbol: '$',
            direction: Direction::Left,
            new_state: String::from_str("q_return_head"),
        },
    ];
    r.append(&mut mid);
    let mut ret = generate_return_head_logic("q_return_head", renamed_start_state);
    r.append(&mut ret);
    let mut tail = vec![
        Transition {
            current_state: String::from_str("0"),
            current_symbol: '_',
            new_symbol: '#',
            direction: Direction::Right,
            new_state: String::from_str("q_write_end_marker_empty"),
        },
        Transition {
            current_state: String::from_str("q_write_end_marker_empty"),
            current_symbol: '_',
            new_symbol: '$',
            direction: Direction::Left,
            new_state: renamed_start_state.to_owned(),
        },
    ];
    r.append(&mut tail);
    proof {
        assert(tviews(r@) =~= setup_transitions_spec(renamed_start_state@));
    }
    r
}

/// The right-boundary cluster for target `s`: a boundary check against the
/// right marker that, on hit, frees the marker's cell and rewrites the marker
/// one cell further before resuming `s`.
pub open spec fn check_right_cluster(s: Seq<char>) -> Seq<TransitionView> {
    check_logic(check_right_label(s), s, '$', '_', Direction::Right, expand_right_label(s))
        + seq![tv(expand_right_label(s), '_', '$', Direction::Left, s)]
}

/// Generates the right-boundary cluster for the given target state.
pub fn generate_check_right_logic(state: &str) -> (r: Vec<Transition>)
    ensures
        tviews(r@) == check_right_cluster(state@),
{
    let check_right_state = concat_label("check_right_", state);
    let expand_right_state = concat_label("expand_right_", state);
    let mut r = generate_check_logic(
        check_right_state.as_str(),
        state,
        '$',
        '_',
        Direction::Right,
        expand_right_state.as_str(),
    );
    r.push(
        Transition {
            current_state: expand_right_state,
            current_symbol: '_',
            new_symbol: '$',
            direction: Direction::Left,
            new_state: state.to_owned(),
        },
    );
    proof {
        assert(tviews(r@) =~= check_right_cluster(state@));
    }
    r
}

/// The full rightward shift for target `state`: erase the leftmost bit, carry
/// it rightward cell by cell, close the region with a fresh right marker
/// (whether the sweep ends on a blank or on the old marker), and return the
/// head before resuming `state`.
pub open spec fn shift_sub_logic(state: Seq<char>, shift_start: Seq<char>) -> Seq<TransitionView> {
    seq![
        tv(shift_start, '0', '_', Direction::Right, shift_carry_0_label(state)),
        tv(shift_start, '1', '_', Direction::Right, shift_carry_1_label(state)),
        tv(shift_start, '_', '_', Direction::Stay, state),
    ] + carry_logic(shift_carry_0_label(state), shift_carry_1_label(state)) + seq![
        tv(shift_carry_0_label(state), '_', '0', Direction::Right, shift_write_end_label(state)),
        tv(shift_carry_1_label(state), '_', '1', Direction::Right, shift_write_end_label(state)),
        tv(shift_carry_0_label(state), '$', '0', Direction::Right, shift_write_end_label(state)),
        tv(shift_carry_1_label(state), '$', '1', Direction::Right, shift_write_end_label(state)),
        tv(shift_start, '$', '_', Direction::Right, shift_write_end_label(state)),
        tv(shift_write_end_label(state), '_', '$', Direction::Left, shift_return_label(state)),
    ] + return_head_logic(shift_return_label(state), state)
}

/// Generates the shift records for the given target and its shift-start state.
pub fn generate_shift_sub_logic(state_suffix: &str, shift_start_state: &str) -> (r: Vec<
    Transition,
>)
    ensures
        tviews(r@) == shift_sub_logic(state_suffix@, shift_start_state@),
{
    let carry_0 = concat_label("shift_carry_0_", state_suffix);
    let carry_1 = concat_label("shift_carry_1_", state_suffix);
    let write_end = concat_label("shift_write_end_", state_suffix);
    let return_s = concat_label("shift_return_", state_suffix);

    let mut r = vec![
        Transition {
            current_state: shift_start_state.to_owned(),
            current_symbol: '0',
            new_symbol: '_',
            direction: Direction::Right,
            new_state: carry_0.clone(),
        },
        Transition {
            current_state: shift_start_state.to_owned(),
            current_symbol: '1',
            new_symbol: '_',
            direction: Direction::Right,
            new_state: carry_1.clone(),
        },
        Transition {
            current_state: shift_start_state.to_owned(),
            current_symbol: '_',
            new_symbol: '_',
            direction: Direction::Stay,
            new_state: state_suffix.to_owned(),
        },
    ];
    let mut carry = generate_carry_logic(carry_0.as_str(), carry_1.as_str());
    r.append(&mut carry);
    let mut mid = vec![
        Transition {
            current_state: carry_0.clone(),
            current_symbol: '_',
            new_symbol: '0',
            direction: Direction::Right,
            new_state: write_end.clone(),
        },
        Transition {
            current_state: carry_1.clone(),
            current_symbol: '_',
            new_symbol: '1',
            direction: Direction::Right,
            new_state: write_end.clone(),
        },
        Transition {
            current_state: carry_0,
            current_symbol: '$',
            new_symbol: '0',
            direction: Direction::Right,
            new_state: write_end.clone(),
        },
        Transition {
            current_state: carry_1,
            current_symbol: '$',
            new_symbol: '1',
            direction: Direction::Right,
            new_state: write_end.clone(),
        },
        Transition {
            current_state: shift_start_state.to_owned(),
            current_symbol: '$',
            new_symbol: '_',
            direction: Direction::Right,
            new_state: write_end.clone(),
        },
        Transition {
            current_state: write_end,
            current_symbol: '_',
            new_symbol: '$',
            direction: Direction::Left,
            new_state: return_s.clone(),
        },
    ];
    r.append(&mut mid);
    let mut ret = generate_return_head_logic(return_s.as_str(), state_suffix);
    r.append(&mut ret);
    proof {
        assert(tviews(r@) =~= shift_sub_logic(state_suffix@, shift_start_state@));
    }
    r
}

/// The left-boundary cluster for target `s`: a boundary check against the
/// left marker that, on hit, runs the full rightward shift before resuming.
pub open spec fn check_left_cluster(s: Seq<char>) -> Seq<TransitionView> {
    check_logic(check_left_label(s), s, '#', '#', Direction::Right, shift_start_label(s))
        + shift_sub_logic(s, shift_start_label(s))
}

/// Generates the left-boundary cluster for the given target state.
pub fn generate_check_left_logic(state: &str) -> (r: Vec<Transition>)
    ensures
        tviews(r@) == check_left_cluster(state@),
{
    let check_left_state = concat_label("check_left_", state);
    let shift_start_state = concat_label("shift_start_", state);
    let mut r = generate_check_logic(
        check_left_state.as_str(),
        state,
        '#',
        '#',
        Direction::Right,
        shift_start_state.as_str(),
    );
    let mut shift = generate_shift_sub_logic(state, shift_start_state.as_str());
    r.append(&mut shift);
    proof {
        assert(tviews(r@) =~= check_left_cluster(state@));
    }
    r
}

/// How one source transition is rewritten: a Right destination is routed
/// through its right check, a Left destination through its left check; Stay
/// transitions, transitions out of a terminal state, and terminal
/// destinations are left untouched.
pub open spec fn rewrite_infinite(t: TransitionView) -> TransitionView {
    if is_halt_label(t.current_state) {
        t
    } else {
        match t.direction {
            Direction::Stay => t,
            Direction::Right => TransitionView {
                new_state: next_state_spec(t.new_state, check_right_label(t.new_state)),
                ..t
            },
            Direction::Left => TransitionView {
                new_state: next_state_spec(t.new_state, check_left_label(t.new_state)),
                ..t
            },
        }
    }
}

/// The whole table after the per-transition rewrite.
pub open spec fn rewritten_infinite(ts: Seq<TransitionView>) -> Seq<TransitionView> {
    ts.map_values(|t: TransitionView| rewrite_infinite(t))
}

/// Adds a non-terminal destination to the collected targets, once.
pub open spec fn add_infinite_target(acc: Seq<Seq<char>>, t: TransitionView) -> Seq<Seq<char>> {
    if !is_halt_label(t.new_state) && !acc.contains(t.new_state) {
        acc.push(t.new_state)
    } else {
        acc
    }
}

/// Collects the distinct non-terminal destinations, in first-occurrence order.
pub open spec fn collect_infinite_targets(acc: Seq<Seq<char>>, ts: Seq<TransitionView>) -> Seq<
    Seq<char>,
>
    decreases ts.len(),
{
    if ts.len() == 0 {
        acc
    } else {
        collect_infinite_targets(add_infinite_target(acc, ts[0]), ts.drop_first())
    }
}

/// The distinct non-terminal destinations of the table.
pub open spec fn infinite_targets(ts: Seq<TransitionView>) -> Seq<Seq<char>> {
    collect_infinite_targets(Seq::empty(), ts)
}

/// The boundary clusters emitted for the collected targets, in order: for
/// each target, its right-boundary cluster then its left-boundary cluster.
pub open spec fn infinite_clusters(targets: Seq<Seq<char>>) -> Seq<TransitionView>
    decreases targets.len(),
{
    if targets.len() == 0 {
        Seq::empty()
    } else {
        check_right_cluster(targets[0]) + check_left_cluster(targets[0]) + infinite_clusters(
            targets.drop_first(),
        )
    }
}

/// The full Infinite-to-Sipser conversion of a (renamed) table: every record
/// rewritten, followed by the boundary clusters of every distinct
/// non-terminal destination.
pub open spec fn infinite_conversion(ts: Seq<TransitionView>) -> Seq<TransitionView> {
    rewritten_infinite(ts) + infinite_clusters(infinite_targets(ts))
}

/// Collecting targets over a table extended by one record adds that record's
/// destination last.
pub proof fn lemma_collect_infinite_push(
    acc: Seq<Seq<char>>,
    u: Seq<TransitionView>,
    x: TransitionView,
)
    ensures
        collect_infinite_targets(acc, u.push(x)) == add_infinite_target(
            collect_infinite_targets(acc, u),
            x,
        ),
    decreases u.len(),
{
    if u.len() == 0 {
        assert(u.push(x)[0] == x);
        assert(u.push(x).drop_first() =~= u);
        assert(collect_infinite_targets(acc, u) == acc);
        assert(collect_infinite_targets(add_infinite_target(acc, x), u) == add_infinite_target(
            acc,
            x,
        ));
        assert(collect_infinite_targets(acc, u.push(x)) == collect_infinite_targets(
            add_infinite_target(acc, x),
            u,
        ));
    } else {
        assert(u.push(x)[0] == u[0]);
        assert(u.push(x).drop_first() =~= u.drop_first().push(x));
        lemma_collect_infinite_push(add_infinite_target(acc, u[0]), u.drop_first(), x);
        assert(collect_infinite_targets(acc, u.push(x)) == collect_infinite_targets(
            add_infinite_target(acc, u[0]),
            u.drop_first().push(x),
        ));
        assert(collect_infinite_targets(acc, u) == collect_infinite_targets(
            add_infinite_target(acc, u[0]),
            u.drop_first(),
        ));
    }
}

/// The clusters of an extended target list are the old clusters followed by
/// the new target's clusters.
pub proof fn lemma_infinite_clusters_push(u: Seq<Seq<char>>, x: Seq<char>)
    ensures
        infinite_clusters(u.push(x)) == infinite_clusters(u) + check_right_cluster(x)
            + check_left_cluster(x),
    decreases u.len(),
{
    if u.len() == 0 {
        assert(u.push(x).drop_first() =~= u);
        assert(infinite_clusters(u.push(x)) =~= infinite_clusters(u) + check_right_cluster(x)
            + check_left_cluster(x));
    } else {
        assert(u.push(x)[0] == u[0]);
        assert(u.push(x).drop_first() =~= u.drop_first().push(x));
        lemma_infinite_clusters_push(u.drop_first(), x);
        assert(infinite_clusters(u.push(x)) =~= infinite_clusters(u) + check_right_cluster(x)
            + check_left_cluster(x));
    }
}

/// Rewrites every transition to route moves through boundary checks, then
/// emits the right- and left-boundary clusters for each distinct non-terminal
/// destination of the table.
pub fn convert_simulation_transitions(original_transitions: &Vec<Transition>) -> (r: Vec<
    Transition,
>)
    ensures
        tviews(r@) == infinite_conversion(tviews(original_transitions@)),
{
    let ghost ts = tviews(original_transitions@);
    let mut targets: Vec<String> = Vec::new();
    let mut out: Vec<Transition> = Vec::new();
    let mut i: usize = 0;
    while i < original_transitions.len()
        invariant
            i <= original_transitions.len(),
            ts == tviews(original_transitions@),
            ts.len() == original_transitions@.len(),
            out@.len() == i,
            forall|j: int| 0 <= j < i ==> out@[j]@ == rewrite_infinite(ts[j]),
            label_views(targets@) == collect_infinite_targets(Seq::empty(), ts.subrange(0, i as int)),
        decreases original_transitions.len() - i,
    {
        let t = &original_transitions[i];
        proof {
            assert(ts[i as int] == original_transitions@[i as int]@);
        }
        let ghost old_targets = label_views(targets@);
        if !is_halt_state(t.new_state.as_str()) {
            if !contains_label(&targets, &t.new_state) {
                targets.push(t.new_state.clone());
                proof {
                    assert(label_views(targets@) =~= old_targets.push(t.new_state@));
                }
            }
        }
        proof {
            lemma_collect_infinite_push(Seq::empty(), ts.subrange(0, i as int), ts[i as int]);
            assert(ts.subrange(0, i as int + 1) =~= ts.subrange(0, i as int).push(ts[i as int]));
            assert(label_views(targets@) == add_infinite_target(old_targets, ts[i as int]));
        }
        let nt: Transition = if is_halt_state(t.current_state.as_str()) {
            t.duplicate()
        } else {
            match t.direction {
                Direction::Stay => t.duplicate(),
                Direction::Right => Transition {
                    current_state: t.current_state.clone(),
                    current_symbol: t.current_symbol,
                    new_symbol: t.new_symbol,
                    direction: t.direction,
                    new_state: get_next_state(
                        t.new_state.as_str(),
                        concat_label("check_right_", t.new_state.as_str()),
                    ),
                },
                Direction::Left => Transition {
                    current_state: t.current_state.clone(),
                    current_symbol: t.current_symbol,
                    new_symbol: t.new_symbol,
                    direction: t.direction,
                    new_state: get_next_state(
                        t.new_state.as_str(),
                        concat_label("check_left_", t.new_state.as_str()),
                    ),
                },
            }
        };
        proof {
            assert(nt@ == rewrite_infinite(ts[i as int]));
        }
        out.push(nt);
        i += 1;
    }
    proof {
        assert(ts.subrange(0, ts.len() as int) =~= ts);
        assert(tviews(out@) =~= rewritten_infinite(ts));
    }
    let ghost all_targets = label_views(targets@);
    let ghost rewritten = tviews(out@);
    let mut j: usize = 0;
    while j < targets.len()
        invariant
            j <= targets.len(),
            all_targets == label_views(targets@),
            all_targets.len() == targets@.len(),
            tviews(out@) == rewritten + infinite_clusters(all_targets.subrange(0, j as int)),
        decreases targets.len() - j,
    {
        proof {
            assert(all_targets[j as int] == targets@[j as int]@);
        }
        let ghost prev = out@;
        let mut cr = generate_check_right_logic(targets[j].as_str());
        let ghost crv = cr@;
        out.append(&mut cr);
        let mut cl = generate_check_left_logic(targets[j].as_str());
        let ghost clv = cl@;
        out.append(&mut cl);
        proof {
            assert(out@ =~= prev + crv + clv);
            assert(tviews(out@) =~= tviews(prev) + tviews(crv) + tviews(clv));
            lemma_infinite_clusters_push(
                all_targets.subrange(0, j as int),
                all_targets[j as int],
            );
            assert(all_targets.subrange(0, j as int + 1) =~= all_targets.subrange(
                0,
                j as int,
            ).push(all_targets[j as int]));
            assert(tviews(out@) =~= rewritten + infinite_clusters(
                all_targets.subrange(0, j as int + 1),
            ));
        }
        j += 1;
    }
    proof {
        assert(all_targets.subrange(0, all_targets.len() as int) =~= all_targets);
        assert(all_targets == infinite_targets(ts));
        assert(tviews(out@) == infinite_conversion(tviews(original_transitions@)));
    }
    out
}

} // verus!
