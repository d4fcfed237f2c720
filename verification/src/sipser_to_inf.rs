//! The Sipser-to-Infinite pipeline: the wall-setup cluster, the
//! per-transition rewrite of Left moves, and the left-boundary-halt cluster
//! that interprets a crossing of the old origin as termination.

use vstd::prelude::*;
use vstd::string::StringExecFns;

use crate::model::{
    concat_label, contains_label, halt_prefix, is_halt_label, is_halt_state, get_next_state,
    label_views, next_state_spec, start_label, tv, tviews, Direction, Transition, TransitionView,
};
use crate::primitives::{check_logic, generate_check_logic};

verus! {

/// The check state a Left-moving transition into `s` is routed through.
pub open spec fn check_left_wall_label(s: Seq<char>) -> Seq<char> {
    "check_left_wall_"@ + s
}

/// The wall-setup cluster: sweep left until a blank, write the left marker
/// there, and hand control to the renamed start state.
pub open spec fn wall_setup_spec(renamed_start: Seq<char>) -> Seq<TransitionView> {
    seq![
        tv(start_label(), '*', '*', Direction::Left, "q_write_wall"@),
        tv("q_write_wall"@, '_', '#', Direction::Right, renamed_start),
    ]
}

/// Generates the wall-setup cluster for the given renamed start state.
pub fn generate_wall_setup_transitions(renamed_start_state: &str) -> (r: Vec<Transition>)
    ensures
        tviews(r@) == wall_setup_spec(renamed_start_state@),
{
    let r = vec![
        Transition {
            current_state: String::from_str("0"),
            current_symbol: '*',
            new_symbol: '*',
            direction: Direction::Left,
            new_state: String::from_str("q_write_wall"),
        },
        Transition {
            current_state: String::from_str("q_write_wall"),
            current_symbol: '_',
            new_symbol: '#',
            direction: Direction::Right,
            new_state: renamed_start_state.to_owned(),
        },
    ];
    proof {
        assert(tviews(r@) =~= wall_setup_spec(renamed_start_state@));
    }
    r
}

/// The left-boundary-halt cluster for target `s`: a boundary check against
/// the left marker that, on hit, dispatches to the reserved terminal state.
pub open spec fn sipser_cluster(s: Seq<char>) -> Seq<TransitionView> {
    check_logic(check_left_wall_label(s), s, '#', '#', Direction::Stay, halt_prefix())
}

/// How one source transition is rewritten: every Left move with a
/// non-terminal destination is routed through its left-wall check; all other
/// records are left untouched.
pub open spec fn rewrite_sipser(t: TransitionView) -> TransitionView {
    if t.direction == Direction::Left {
        TransitionView {
            new_state: next_state_spec(t.new_state, check_left_wall_label(t.new_state)),
            ..t
        }
    } else {
        t
    }
}

/// The whole table after the per-transition rewrite.
pub open spec fn rewritten_sipser(ts: Seq<TransitionView>) -> Seq<TransitionView> {
    ts.map_values(|t: TransitionView| rewrite_sipser(t))
}

/// Adds the destination of a Left move to the collected targets, once, if it
/// is not terminal.
pub open spec fn add_sipser_target(acc: Seq<Seq<char>>, t: TransitionView) -> Seq<Seq<char>> {
    if t.direction == Direction::Left && !is_halt_label(t.new_state) && !acc.contains(t.new_state) {
        acc.push(t.new_state)
    } else {
        acc
    }
}

/// Collects the distinct non-terminal Left-move destinations, in
/// first-occurrence order.
pub open spec fn collect_sipser_targets(acc: Seq<Seq<char>>, ts: Seq<TransitionView>) -> Seq<
    Seq<char>,
>
    decreases ts.len(),
{
    if ts.len() == 0 {
        acc
    } else {
        collect_sipser_targets(add_sipser_target(acc, ts[0]), ts.drop_first())
    }
}

/// The distinct non-terminal Left-move destinations of the table.
pub open spec fn sipser_targets(ts: Seq<TransitionView>) -> Seq<Seq<char>> {
    collect_sipser_targets(Seq::empty(), ts)
}

/// The left-boundary-halt clusters emitted for the collected targets.
pub open spec fn sipser_clusters(targets: Seq<Seq<char>>) -> Seq<TransitionView>
    decreases targets.len(),
{
    if targets.len() == 0 {
        Seq::empty()
    } else {
        sipser_cluster(targets[0]) + sipser_clusters(targets.drop_first())
    }
}

/// The full Sipser-to-Infinite conversion of a (renamed) table: every record
/// rewritten, followed by the left-boundary-halt cluster of every distinct
/// non-terminal Left-move destination.
pub open spec fn sipser_conversion(ts: Seq<TransitionView>) -> Seq<TransitionView> {
    rewritten_sipser(ts) + sipser_clusters(sipser_targets(ts))
}

/// Collecting targets over a table extended by one record adds that record's
/// destination last.
pub proof fn lemma_collect_sipser_push(
    acc: Seq<Seq<char>>,
    u: Seq<TransitionView>,
    x: TransitionView,
)
    ensures
        collect_sipser_targets(acc, u.push(x)) == add_sipser_target(
            collect_sipser_targets(acc, u),
            x,
        ),
    decreases u.len(),
{
    if u.len() == 0 {
        assert(u.push(x)[0] == x);
        assert(u.push(x).drop_first() =~= u);
        assert(collect_sipser_targets(acc, u) == acc);
        assert(collect_sipser_targets(add_sipser_target(acc, x), u) == add_sipser_target(acc, x));
        assert(collect_sipser_targets(acc, u.push(x)) == collect_sipser_targets(
            add_sipser_target(acc, x),
            u,
        ));
    } else {
        assert(u.push(x)[0] == u[0]);
        assert(u.push(x).drop_first() =~= u.drop_first().push(x));
        lemma_collect_sipser_push(add_sipser_target(acc, u[0]), u.drop_first(), x);
        assert(collect_sipser_targets(acc, u.push(x)) == collect_sipser_targets(
            add_sipser_target(acc, u[0]),
            u.drop_first().push(x),
        ));
        assert(collect_sipser_targets(acc, u) == collect_sipser_targets(
            add_sipser_target(acc, u[0]),
            u.drop_first(),
        ));
    }
}

/// The clusters of an extended target list are the old clusters followed by
/// the new target's cluster.
pub proof fn lemma_sipser_clusters_push(u: Seq<Seq<char>>, x: Seq<char>)
    ensures
        sipser_clusters(u.push(x)) == sipser_clusters(u) + sipser_cluster(x),
    decreases u.len(),
{
    if u.len() == 0 {
        assert(u.push(x)[0] == x);
        assert(u.push(x).drop_first() =~= u);
        assert(sipser_clusters(u.push(x)) =~= sipser_clusters(u) + sipser_cluster(x));
    } else {
        assert(u.push(x)[0] == u[0]);
        assert(u.push(x).drop_first() =~= u.drop_first().push(x));
        lemma_sipser_clusters_push(u.drop_first(), x);
        assert(sipser_clusters(u.push(x)) =~= sipser_clusters(u) + sipser_cluster(x));
    }
}

/// Rewrites every Left move with a non-terminal destination to go through a
/// left-wall check, then emits the halt-dispatch cluster for each distinct
/// such destination.
pub fn convert_sipser_to_infinite(original_transitions: &Vec<Transition>) -> (r: Vec<Transition>)
    ensures
        tviews(r@) == sipser_conversion(tviews(original_transitions@)),
{
    let ghost ts = tviews(original_transitions@);
    let mut targets: Vec<String> = Vec::new();
    let mut out: Vec<Transition> = Vec::new();
    let mut i: usize = 0;
    while i < original_transitions.len()
        invariant
            i <= original_transitions.len(),
            ts == tviews(original_transitions@),
            ts.len() == original_transitions@.len(),
            out@.len() == i,
            forall|j: int| 0 <= j < i ==> out@[j]@ == rewrite_sipser(ts[j]),
            label_views(targets@) == collect_sipser_targets(Seq::empty(), ts.subrange(0, i as int)),
        decreases original_transitions.len() - i,
    {
        let t = &original_transitions[i];
        proof {
            assert(ts[i as int] == original_transitions@[i as int]@);
        }
        let ghost old_targets = label_views(targets@);
        let is_left = match t.direction {
            Direction::Left => true,
            _ => false,
        };
        if is_left && !is_halt_state(t.new_state.as_str()) {
            if !contains_label(&targets, &t.new_state) {
                targets.push(t.new_state.clone());
                proof {
                    assert(label_views(targets@) =~= old_targets.push(t.new_state@));
                }
            }
        }
        proof {
            lemma_collect_sipser_push(Seq::empty(), ts.subrange(0, i as int), ts[i as int]);
            assert(ts.subrange(0, i as int + 1) =~= ts.subrange(0, i as int).push(ts[i as int]));
            assert(label_views(targets@) == add_sipser_target(old_targets, ts[i as int]));
        }
        let nt: Transition = if is_left {
            Transition {
                current_state: t.current_state.clone(),
                current_symbol: t.current_symbol,
                new_symbol: t.new_symbol,
                direction: t.direction,
                new_state: get_next_state(
                    t.new_state.as_str(),
                    concat_label("check_left_wall_", t.new_state.as_str()),
                ),
            }
        } else {
            t.duplicate()
        };
        proof {
            assert(nt@ == rewrite_sipser(ts[i as int]));
        }
        out.push(nt);
        i += 1;
    }
    proof {
        assert(ts.subrange(0, ts.len() as int) =~= ts);
        assert(tviews(out@) =~= rewritten_sipser(ts));
    }
    let ghost all_targets = label_views(targets@);
    let ghost rewritten = tviews(out@);
    let mut j: usize = 0;
    while j < targets.len()
        invariant
            j <= targets.len(),
            all_targets == label_views(targets@),
            all_targets.len() == targets@.len(),
            tviews(out@) == rewritten + sipser_clusters(all_targets.subrange(0, j as int)),
        decreases targets.len() - j,
    {
        proof {
            assert(all_targets[j as int] == targets@[j as int]@);
        }
        let ghost prev = out@;
        let check_state = concat_label("check_left_wall_", targets[j].as_str());
        let mut cl = generate_check_logic(
            check_state.as_str(),
            targets[j].as_str(),
            '#',
            '#',
            Direction::Stay,
            "halt",
        );
        let ghost clv = cl@;
        out.append(&mut cl);
        proof {
            assert(out@ =~= prev + clv);
            assert(tviews(out@) =~= tviews(prev) + tviews(clv));
            lemma_sipser_clusters_push(all_targets.subrange(0, j as int), all_targets[j as int]);
            assert(all_targets.subrange(0, j as int + 1) =~= all_targets.subrange(
                0,
                j as int,
            ).push(all_targets[j as int]));
            assert(tviews(out@) =~= rewritten + sipser_clusters(
                all_targets.subrange(0, j as int + 1),
            ));
        }
        j += 1;
    }
    proof {
        assert(all_targets.subrange(0, all_targets.len() as int) =~= all_targets);
        assert(all_targets == sipser_targets(ts));
        assert(tviews(out@) == sipser_conversion(tviews(original_transitions@)));
    }
    out
}

} // verus!
