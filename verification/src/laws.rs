//! The library's stated laws: determinism of the conversion, the
//! render/parse round trip, terminal invariance, and the shape and placement
//! of the synthesized boundary clusters.

use vstd::prelude::*;

use crate::convert::{conversion_spec, renamed_start};
use crate::inf_to_sipser::{
    add_infinite_target, check_left_cluster, check_right_cluster, collect_infinite_targets,
    infinite_clusters, infinite_conversion, infinite_targets, rewrite_infinite,
    rewritten_infinite, setup_transitions_spec,
};
use crate::model::{halt_prefix, is_halt_label, sim_prefix, tv, Direction, TransitionView};
use crate::parse::{
    direction_token, is_space_char, lemma_comment_start_at, lemma_split_ws_blank,
    lemma_split_ws_token, lemma_split_ws_word, parse_line_spec, split_ws, strip_comment,
};
use crate::rename::{rename_label, rename_table, rename_transition};
use crate::render::{direction_char, render_spec};
use crate::sipser_to_inf::{
    add_sipser_target, check_left_wall_label, collect_sipser_targets, rewrite_sipser,
    rewritten_sipser, sipser_cluster, sipser_clusters, sipser_conversion, sipser_targets,
    wall_setup_spec,
};

verus! {

/// Identical input characters always yield the identical conversion outcome,
/// so equal input bytes give byte-identical output text.
pub proof fn lemma_conversion_deterministic(a: Seq<char>, b: Seq<char>)
    requires
        a == b,
    ensures
        conversion_spec(a) == conversion_spec(b),
{
}

/// A label that can survive a render/parse round trip: non-empty, and free of
/// separators and of the comment delimiter.
pub open spec fn wf_label(l: Seq<char>) -> bool {
    l.len() > 0 && forall|i: int| 0 <= i < l.len() ==> !is_space_char(l[i]) && l[i] != ';'
}

/// A symbol that can survive a render/parse round trip.
pub open spec fn wf_symbol(c: char) -> bool {
    !is_space_char(c) && c != ';'
}

/// Replaces each wildcard of a parsed record with the field it stands for.
pub open spec fn expand_wildcards(t: TransitionView) -> TransitionView {
    TransitionView {
        new_symbol: if t.new_symbol == '*' {
            t.current_symbol
        } else {
            t.new_symbol
        },
        new_state: if t.new_state == seq!['*'] {
            t.current_state
        } else {
            t.new_state
        },
        ..t
    }
}

/// Round trip: rendering a record and re-parsing the line yields the record
/// back once each wildcard is expanded from the context it was derived from.
/// A record whose new symbol is the wildcard character itself (while the
/// current symbol is not), or whose new state is the bare wildcard label
/// (while the current state is not), renders ambiguously and is excluded.
pub proof fn lemma_render_parse_round_trip(t: TransitionView)
    requires
        wf_label(t.current_state),
        wf_label(t.new_state),
        wf_symbol(t.current_symbol),
        wf_symbol(t.new_symbol),
        t.new_symbol == '*' ==> t.current_symbol == '*',
        t.new_state == seq!['*'] ==> t.current_state == seq!['*'],
    ensures
        parse_line_spec(render_spec(t)) matches Ok(u) && expand_wildcards(u) == t,
{
    let a = t.current_state;
    let sym = t.current_symbol;
    let ns = if t.new_symbol == t.current_symbol {
        '*'
    } else {
        t.new_symbol
    };
    let dc = direction_char(t.direction);
    let b = if t.new_state == t.current_state {
        seq!['*']
    } else {
        t.new_state
    };
    let s = render_spec(t);
    assert(dc == 'l' || dc == 'r' || dc == '*');
    assert(!is_space_char(ns) && ns != ';');
    assert(forall|k: int| 0 <= k < b.len() ==> !is_space_char(b[k]) && b[k] != ';');

    // No comment delimiter anywhere, so stripping is the identity.
    assert(s.len() == a.len() + 7 + b.len());
    assert(forall|k: int| 0 <= k < a.len() ==> s[k] == a[k]);
    assert(s[a.len() as int] == ' ');
    assert(s[a.len() as int + 1] == sym);
    assert(s[a.len() as int + 2] == ' ');
    assert(s[a.len() as int + 3] == ns);
    assert(s[a.len() as int + 4] == ' ');
    assert(s[a.len() as int + 5] == dc);
    assert(s[a.len() as int + 6] == ' ');
    assert(forall|k: int| a.len() as int + 7 <= k < s.len() ==> s[k] == b[k - a.len() as int - 7]);
    assert(forall|k: int| 0 <= k < s.len() ==> s[k] != ';');
    lemma_comment_start_at(s, s.len() as int);
    assert(strip_comment(s) =~= s);

    // The five tokens.
    let u4 = b;
    let u3 = seq![dc] + (seq![' '] + u4);
    let u2 = seq![ns] + (seq![' '] + u3);
    let u1 = seq![sym] + (seq![' '] + u2);
    assert(s =~= a + (seq![' '] + u1));

    lemma_split_ws_token(u4, u4.len() as int);
    assert(u4.subrange(0, u4.len() as int) =~= u4);
    assert(u4.subrange(u4.len() as int, u4.len() as int) =~= Seq::<char>::empty());
    assert(split_ws(u4) =~= seq![b]);

    lemma_split_ws_word(seq![dc], seq![' '] + u4);
    lemma_split_ws_blank(u4);
    assert(split_ws(u3) =~= seq![seq![dc], b]);

    lemma_split_ws_word(seq![ns], seq![' '] + u3);
    lemma_split_ws_blank(u3);
    assert(split_ws(u2) =~= seq![seq![ns], seq![dc], b]);

    lemma_split_ws_word(seq![sym], seq![' '] + u2);
    lemma_split_ws_blank(u2);
    assert(split_ws(u1) =~= seq![seq![sym], seq![ns], seq![dc], b]);

    lemma_split_ws_word(a, seq![' '] + u1);
    lemma_split_ws_blank(u1);
    assert(split_ws(s) =~= seq![a, seq![sym], seq![ns], seq![dc], b]);

    let toks = split_ws(strip_comment(s));
    assert(toks.len() == 5);
    assert(toks[1] == seq![sym] && toks[2] == seq![ns] && toks[3] == seq![dc]);
    assert(seq![sym].len() == 1 && seq![ns].len() == 1);

    // The direction token reads back as the direction it was rendered from.
    assert(seq!['r'] != seq!['l']) by {
        if seq!['r'] == seq!['l'] {
            assert(seq!['r'][0] == seq!['l'][0]);
        }
    }
    assert(seq!['*'] != seq!['l']) by {
        if seq!['*'] == seq!['l'] {
            assert(seq!['*'][0] == seq!['l'][0]);
        }
    }
    assert(seq!['*'] != seq!['r']) by {
        if seq!['*'] == seq!['r'] {
            assert(seq!['*'][0] == seq!['r'][0]);
        }
    }
    assert(direction_token(seq![dc]) == Some(t.direction));

    assert(parse_line_spec(s) == Ok::<TransitionView, crate::parse::ParseErrorView>(
        tv(a, sym, ns, t.direction, b),
    ));
    let u = tv(a, sym, ns, t.direction, b);
    if t.new_symbol != t.current_symbol {
        assert(ns != '*');
    }
    if t.new_state != t.current_state {
        assert(b != seq!['*']) by {
            if t.new_state == seq!['*'] {
                assert(t.current_state == seq!['*']);
            }
        }
    }
    assert(expand_wildcards(u) =~= t);
}

/// Terminal invariance, Infinite-to-Sipser: a source transition whose
/// destination starts with the terminal prefix keeps its symbols, direction,
/// and its destination verbatim (unrenamed) in the rewritten part of the
/// output; if its source state is terminal too, the whole record passes
/// through untouched.
pub proof fn lemma_terminal_invariance_infinite(ts: Seq<TransitionView>, i: int)
    requires
        0 <= i < ts.len(),
        is_halt_label(ts[i].new_state),
    ensures
        ({
            let out = crate::inf_to_sipser::setup_transitions_spec(renamed_start())
                + infinite_conversion(rename_table(sim_prefix(), ts));
            let j = crate::inf_to_sipser::setup_transitions_spec(renamed_start()).len() + i;
            &&& 0 <= j < out.len()
            &&& out[j].new_state == ts[i].new_state
            &&& out[j].current_symbol == ts[i].current_symbol
            &&& out[j].new_symbol == ts[i].new_symbol
            &&& out[j].direction == ts[i].direction
            &&& is_halt_label(ts[i].current_state) ==> out[j] == ts[i]
        }),
{
    let renamed = rename_table(sim_prefix(), ts);
    let rt = rename_transition(sim_prefix(), ts[i]);
    assert(renamed[i] == rt);
    assert(rt.new_state == ts[i].new_state);
    let rw = crate::inf_to_sipser::rewrite_infinite(rt);
    assert(rw =~= rt);
    let out = crate::inf_to_sipser::setup_transitions_spec(renamed_start())
        + infinite_conversion(renamed);
    let setup_len = crate::inf_to_sipser::setup_transitions_spec(renamed_start()).len() as int;
    assert(infinite_conversion(renamed)[i] == crate::inf_to_sipser::rewritten_infinite(
        renamed,
    )[i]);
    assert(out[setup_len + i] == rw);
    if is_halt_label(ts[i].current_state) {
        assert(rt =~= ts[i]);
    }
}

/// Terminal invariance, Sipser-to-Infinite: the same, in the rewritten part
/// of the Sipser pipeline's output.
pub proof fn lemma_terminal_invariance_sipser(ts: Seq<TransitionView>, i: int)
    requires
        0 <= i < ts.len(),
        is_halt_label(ts[i].new_state),
    ensures
        ({
            let out = crate::sipser_to_inf::wall_setup_spec(renamed_start())
                + crate::sipser_to_inf::sipser_conversion(rename_table(sim_prefix(), ts));
            let j = crate::sipser_to_inf::wall_setup_spec(renamed_start()).len() + i;
            &&& 0 <= j < out.len()
            &&& out[j].new_state == ts[i].new_state
            &&& out[j].current_symbol == ts[i].current_symbol
            &&& out[j].new_symbol == ts[i].new_symbol
            &&& out[j].direction == ts[i].direction
            &&& is_halt_label(ts[i].current_state) ==> out[j] == ts[i]
        }),
{
    let renamed = rename_table(sim_prefix(), ts);
    let rt = rename_transition(sim_prefix(), ts[i]);
    assert(renamed[i] == rt);
    assert(rt.new_state == ts[i].new_state);
    let rw = crate::sipser_to_inf::rewrite_sipser(rt);
    assert(rw =~= rt);
    let out = crate::sipser_to_inf::wall_setup_spec(renamed_start())
        + crate::sipser_to_inf::sipser_conversion(renamed);
    let setup_len = crate::sipser_to_inf::wall_setup_spec(renamed_start()).len() as int;
    assert(crate::sipser_to_inf::sipser_conversion(renamed)[i]
        == crate::sipser_to_inf::rewritten_sipser(renamed)[i]);
    assert(out[setup_len + i] == rw);
    if is_halt_label(ts[i].current_state) {
        assert(rt =~= ts[i]);
    }
}

/// The whole Infinite-to-Sipser output table for a source table.
pub open spec fn infinite_output(ts: Seq<TransitionView>) -> Seq<TransitionView> {
    setup_transitions_spec(renamed_start()) + infinite_conversion(rename_table(sim_prefix(), ts))
}

/// The whole Sipser-to-Infinite output table for a source table.
pub open spec fn sipser_output(ts: Seq<TransitionView>) -> Seq<TransitionView> {
    wall_setup_spec(renamed_start()) + sipser_conversion(rename_table(sim_prefix(), ts))
}

/// A record that consumes a boundary marker: it reads one of the two marker
/// symbols and writes something else over it.
pub open spec fn consumes_boundary_marker(t: TransitionView) -> bool {
    (t.current_symbol == '#' || t.current_symbol == '$') && t.new_symbol != t.current_symbol
}

/// Whether a label starts with the given prefix.
pub open spec fn has_label_prefix(l: Seq<char>, p: Seq<char>) -> bool {
    l.len() >= p.len() && l.subrange(0, p.len() as int) == p
}

/// The engine-reserved control states that are allowed to consume a boundary
/// marker: the right-boundary check and the shift states of the left-boundary
/// expansion.
pub open spec fn engine_boundary_cluster_state(l: Seq<char>) -> bool {
    ||| has_label_prefix(l, "check_right_"@)
    ||| has_label_prefix(l, "shift_start_"@)
    ||| has_label_prefix(l, "shift_carry_0_"@)
    ||| has_label_prefix(l, "shift_carry_1_"@)
}

/// A role prefix concatenated with a label starts with that prefix.
proof fn lemma_prefix_of_concat(p: Seq<char>, s: Seq<char>)
    ensures
        has_label_prefix(p + s, p),
{
    assert((p + s).subrange(0, p.len() as int) =~= p);
}

/// Renaming a non-terminal label yields a non-terminal label: the namespace
/// prefix does not start with the terminal prefix.
pub proof fn lemma_renamed_not_halt(l: Seq<char>)
    requires
        !is_halt_label(l),
    ensures
        !is_halt_label(rename_label(sim_prefix(), l)),
{
    reveal_strlit("sim_");
    reveal_strlit("halt");
    let r = sim_prefix() + l;
    assert(r.subrange(0, 4) =~= sim_prefix());
    assert(sim_prefix() != halt_prefix()) by {
        if sim_prefix() == halt_prefix() {
            assert(sim_prefix()[0] == halt_prefix()[0]);
        }
    }
}

/// Every record of the left/right boundary clusters that consumes a marker
/// stands in an engine-reserved control state.
proof fn lemma_infinite_clusters_consume(targets: Seq<Seq<char>>, k: int)
    requires
        0 <= k < infinite_clusters(targets).len(),
    ensures
        consumes_boundary_marker(infinite_clusters(targets)[k])
            ==> engine_boundary_cluster_state(infinite_clusters(targets)[k].current_state),
    decreases targets.len(),
{
    if targets.len() > 0 {
        let s = targets[0];
        let head = check_right_cluster(s) + check_left_cluster(s);
        lemma_prefix_of_concat("check_right_"@, s);
        lemma_prefix_of_concat("shift_start_"@, s);
        lemma_prefix_of_concat("shift_carry_0_"@, s);
        lemma_prefix_of_concat("shift_carry_1_"@, s);
        assert(head.len() == 20);
        if k < 20 {
            assert(consumes_boundary_marker(infinite_clusters(targets)[k])
                ==> engine_boundary_cluster_state(infinite_clusters(targets)[k].current_state));
        } else {
            lemma_infinite_clusters_consume(targets.drop_first(), k - 20);
            assert(infinite_clusters(targets)[k] == infinite_clusters(targets.drop_first())[k
                - 20]);
        }
    }
}

/// Boundary-marker consumption happens only inside engine-reserved control
/// clusters: if no source transition consumes a marker, then every output
/// record of the Infinite-to-Sipser conversion that consumes one stands in a
/// reserved check or shift state, never in a rewritten source transition.
pub proof fn lemma_markers_consumed_only_in_clusters(ts: Seq<TransitionView>, j: int)
    requires
        forall|i: int| 0 <= i < ts.len() ==> !consumes_boundary_marker(#[trigger] ts[i]),
        0 <= j < infinite_output(ts).len(),
    ensures
        consumes_boundary_marker(infinite_output(ts)[j]) ==> engine_boundary_cluster_state(
            infinite_output(ts)[j].current_state,
        ),
{
    let su = setup_transitions_spec(renamed_start());
    let renamed = rename_table(sim_prefix(), ts);
    let rew = rewritten_infinite(renamed);
    let clusters = infinite_clusters(infinite_targets(renamed));
    let out = infinite_output(ts);
    assert(out =~= su + rew + clusters);
    if j < su.len() {
        assert(!consumes_boundary_marker(su[j]));
    } else if j < su.len() + rew.len() {
        let i = j - su.len();
        assert(out[j] == rew[i]);
        assert(rew[i] == rewrite_infinite(renamed[i]));
        assert(renamed[i] == rename_transition(sim_prefix(), ts[i]));
        assert(rew[i].current_symbol == ts[i].current_symbol);
        assert(rew[i].new_symbol == ts[i].new_symbol);
        assert(!consumes_boundary_marker(out[j]));
    } else {
        let k = j - su.len() - rew.len();
        assert(out[j] == clusters[k]);
        lemma_infinite_clusters_consume(infinite_targets(renamed), k);
    }
}

/// A label already collected stays collected.
proof fn lemma_collect_infinite_mono(acc: Seq<Seq<char>>, ts: Seq<TransitionView>, x: Seq<char>)
    requires
        acc.contains(x),
    ensures
        collect_infinite_targets(acc, ts).contains(x),
    decreases ts.len(),
{
    if ts.len() > 0 {
        let acc2 = add_infinite_target(acc, ts[0]);
        assert(acc2.contains(x)) by {
            let w = choose|w: int| 0 <= w < acc.len() && acc[w] == x;
            assert(acc2[w] == x);
        }
        lemma_collect_infinite_mono(acc2, ts.drop_first(), x);
    }
}

/// Every non-terminal destination of the table is collected.
proof fn lemma_collect_infinite_contains(acc: Seq<Seq<char>>, ts: Seq<TransitionView>, i: int)
    requires
        0 <= i < ts.len(),
        !is_halt_label(ts[i].new_state),
    ensures
        collect_infinite_targets(acc, ts).contains(ts[i].new_state),
    decreases ts.len(),
{
    let acc2 = add_infinite_target(acc, ts[0]);
    if i == 0 {
        assert(acc2.contains(ts[0].new_state)) by {
            if !acc.contains(ts[0].new_state) {
                assert(acc2 == acc.push(ts[0].new_state));
                assert(acc2[acc.len() as int] == ts[0].new_state);
            } else {
                let w = choose|w: int| 0 <= w < acc.len() && acc[w] == ts[0].new_state;
                assert(acc2[w] == ts[0].new_state);
            }
        }
        lemma_collect_infinite_mono(acc2, ts.drop_first(), ts[0].new_state);
    } else {
        assert(ts.drop_first()[i - 1] == ts[i]);
        lemma_collect_infinite_contains(acc2, ts.drop_first(), i - 1);
    }
}

/// Each collected target contributes twenty cluster records.
proof fn lemma_infinite_clusters_len(targets: Seq<Seq<char>>)
    ensures
        infinite_clusters(targets).len() == 20 * targets.len(),
    decreases targets.len(),
{
    if targets.len() > 0 {
        lemma_infinite_clusters_len(targets.drop_first());
    }
}

/// The cluster block of the `j`-th collected target sits at offset `20 * j`
/// and is exactly its right-boundary cluster followed by its left-boundary
/// cluster.
proof fn lemma_infinite_clusters_at(targets: Seq<Seq<char>>, j: int)
    requires
        0 <= j < targets.len(),
    ensures
        infinite_clusters(targets).subrange(20 * j, 20 * j + 20) == check_right_cluster(
            targets[j],
        ) + check_left_cluster(targets[j]),
    decreases j,
{
    lemma_infinite_clusters_len(targets);
    lemma_infinite_clusters_len(targets.drop_first());
    let whole = infinite_clusters(targets);
    let head = check_right_cluster(targets[0]) + check_left_cluster(targets[0]);
    let rest = infinite_clusters(targets.drop_first());
    if j == 0 {
        assert(whole.subrange(0, 20) =~= head);
    } else {
        lemma_infinite_clusters_at(targets.drop_first(), j - 1);
        assert(targets.drop_first()[j - 1] == targets[j]);
        assert(whole.subrange(20 * j, 20 * j + 20) =~= rest.subrange(
            20 * (j - 1),
            20 * (j - 1) + 20,
        ));
    }
}

/// For every non-terminal destination of the source table (so in particular
/// for every one reached by a Right- or Left-moving transition), the
/// Infinite-to-Sipser output contains, contiguously, the full right-boundary
/// cluster and the full left-boundary shift/carry/return chain of the
/// renamed destination.
pub proof fn lemma_boundary_clusters_emitted(ts: Seq<TransitionView>, i: int)
    requires
        0 <= i < ts.len(),
        !is_halt_label(ts[i].new_state),
    ensures
        ({
            let out = infinite_output(ts);
            let x = rename_label(sim_prefix(), ts[i].new_state);
            exists|k: int|
                0 <= k && k + 20 <= out.len() && #[trigger] out.subrange(k, k + 3)
                    == check_right_cluster(x) && out.subrange(k + 3, k + 20)
                    == check_left_cluster(x)
        }),
{
    let out = infinite_output(ts);
    let renamed = rename_table(sim_prefix(), ts);
    let x = rename_label(sim_prefix(), ts[i].new_state);
    assert(renamed[i] == rename_transition(sim_prefix(), ts[i]));
    assert(renamed[i].new_state == x);
    lemma_renamed_not_halt(ts[i].new_state);
    lemma_collect_infinite_contains(Seq::empty(), renamed, i);
    let targets = infinite_targets(renamed);
    assert(targets.contains(x));
    let tj = choose|w: int| 0 <= w < targets.len() && targets[w] == x;
    lemma_infinite_clusters_len(targets);
    lemma_infinite_clusters_at(targets, tj);
    let su = setup_transitions_spec(renamed_start());
    let rew = rewritten_infinite(renamed);
    let clusters = infinite_clusters(targets);
    assert(out =~= su + rew + clusters);
    let k = su.len() + rew.len() + 20 * tj;
    assert(k + 20 <= out.len());
    let pair = check_right_cluster(x) + check_left_cluster(x);
    assert(pair.len() == 20);
    assert(check_right_cluster(x).len() == 3);
    assert forall|m: int| 0 <= m < 20 implies out[k + m] == pair[m] by {
        assert(clusters.subrange(20 * tj, 20 * tj + 20)[m] == clusters[20 * tj + m]);
        assert(clusters.subrange(20 * tj, 20 * tj + 20)[m] == pair[m]);
        assert(out[k + m] == clusters[20 * tj + m]);
    }
    assert(out.subrange(k as int, k as int + 3) =~= check_right_cluster(x)) by {
        assert forall|m: int| 0 <= m < 3 implies out.subrange(k as int, k as int + 3)[m]
            == check_right_cluster(x)[m] by {
            assert(out.subrange(k as int, k as int + 3)[m] == out[k + m]);
            assert(pair[m] == check_right_cluster(x)[m]);
        }
    }
    assert(out.subrange(k as int + 3, k as int + 20) =~= check_left_cluster(x)) by {
        assert forall|m: int| 0 <= m < 17 implies out.subrange(k as int + 3, k as int + 20)[m]
            == check_left_cluster(x)[m] by {
            assert(out.subrange(k as int + 3, k as int + 20)[m] == out[k + 3 + m]);
            assert(pair[3 + m] == check_left_cluster(x)[m]);
        }
    }
    assert(0 <= k as int && k as int + 20 <= out.len() && out.subrange(k as int, k as int + 3)
        == check_right_cluster(x) && out.subrange(k as int + 3, k as int + 20)
        == check_left_cluster(x));
}

/// No label occurs twice in the sequence.
pub open spec fn distinct_labels(s: Seq<Seq<char>>) -> bool {
    forall|i: int, j: int| 0 <= i < j < s.len() ==> s[i] != s[j]
}

/// Collecting targets never introduces a duplicate.
proof fn lemma_collect_infinite_distinct(acc: Seq<Seq<char>>, ts: Seq<TransitionView>)
    requires
        distinct_labels(acc),
    ensures
        distinct_labels(collect_infinite_targets(acc, ts)),
    decreases ts.len(),
{
    if ts.len() > 0 {
        let acc2 = add_infinite_target(acc, ts[0]);
        assert(distinct_labels(acc2)) by {
            if !is_halt_label(ts[0].new_state) && !acc.contains(ts[0].new_state) {
                assert(forall|i: int| 0 <= i < acc.len() ==> acc[i] != ts[0].new_state);
                assert(forall|i: int| 0 <= i < acc.len() ==> acc2[i] == acc[i]);
            }
        }
        lemma_collect_infinite_distinct(acc2, ts.drop_first());
    }
}

/// The collected targets of a table are pairwise distinct, so the emitted
/// boundary-cluster blocks are pairwise distinct too: each destination's
/// cluster pair is emitted exactly once.
pub proof fn lemma_infinite_targets_distinct(ts: Seq<TransitionView>)
    ensures
        distinct_labels(infinite_targets(ts)),
{
    lemma_collect_infinite_distinct(Seq::empty(), ts);
}

/// The Infinite-to-Sipser conversion of a table holds one rewritten record
/// per source record, plus exactly twenty cluster records per distinct
/// non-terminal destination.
pub proof fn lemma_infinite_conversion_len(ts: Seq<TransitionView>)
    ensures
        infinite_conversion(ts).len() == ts.len() + 20 * infinite_targets(ts).len(),
{
    lemma_infinite_clusters_len(infinite_targets(ts));
}

/// A label already collected stays collected.
proof fn lemma_collect_sipser_mono(acc: Seq<Seq<char>>, ts: Seq<TransitionView>, x: Seq<char>)
    requires
        acc.contains(x),
    ensures
        collect_sipser_targets(acc, ts).contains(x),
    decreases ts.len(),
{
    if ts.len() > 0 {
        let acc2 = add_sipser_target(acc, ts[0]);
        assert(acc2.contains(x)) by {
            let w = choose|w: int| 0 <= w < acc.len() && acc[w] == x;
            assert(acc2[w] == x);
        }
        lemma_collect_sipser_mono(acc2, ts.drop_first(), x);
    }
}

/// Every non-terminal destination of a Left-moving transition is collected.
proof fn lemma_collect_sipser_contains(acc: Seq<Seq<char>>, ts: Seq<TransitionView>, i: int)
    requires
        0 <= i < ts.len(),
        ts[i].direction == Direction::Left,
        !is_halt_label(ts[i].new_state),
    ensures
        collect_sipser_targets(acc, ts).contains(ts[i].new_state),
    decreases ts.len(),
{
    let acc2 = add_sipser_target(acc, ts[0]);
    if i == 0 {
        assert(acc2.contains(ts[0].new_state)) by {
            if !acc.contains(ts[0].new_state) {
                assert(acc2 == acc.push(ts[0].new_state));
                assert(acc2[acc.len() as int] == ts[0].new_state);
            } else {
                let w = choose|w: int| 0 <= w < acc.len() && acc[w] == ts[0].new_state;
                assert(acc2[w] == ts[0].new_state);
            }
        }
        lemma_collect_sipser_mono(acc2, ts.drop_first(), ts[0].new_state);
    } else {
        assert(ts.drop_first()[i - 1] == ts[i]);
        lemma_collect_sipser_contains(acc2, ts.drop_first(), i - 1);
    }
}

/// Each collected target contributes two cluster records.
proof fn lemma_sipser_clusters_len(targets: Seq<Seq<char>>)
    ensures
        sipser_clusters(targets).len() == 2 * targets.len(),
    decreases targets.len(),
{
    if targets.len() > 0 {
        lemma_sipser_clusters_len(targets.drop_first());
    }
}

/// The cluster of the `j`-th collected target sits at offset `2 * j`.
proof fn lemma_sipser_clusters_at(targets: Seq<Seq<char>>, j: int)
    requires
        0 <= j < targets.len(),
    ensures
        sipser_clusters(targets).subrange(2 * j, 2 * j + 2) == sipser_cluster(targets[j]),
    decreases j,
{
    lemma_sipser_clusters_len(targets);
    lemma_sipser_clusters_len(targets.drop_first());
    let whole = sipser_clusters(targets);
    let rest = sipser_clusters(targets.drop_first());
    if j == 0 {
        assert(whole.subrange(0, 2) =~= sipser_cluster(targets[0]));
    } else {
        lemma_sipser_clusters_at(targets.drop_first(), j - 1);
        assert(targets.drop_first()[j - 1] == targets[j]);
        assert(whole.subrange(2 * j, 2 * j + 2) =~= rest.subrange(2 * (j - 1), 2 * (j - 1) + 2));
    }
}

/// Collecting Left-move targets never introduces a duplicate.
proof fn lemma_collect_sipser_distinct(acc: Seq<Seq<char>>, ts: Seq<TransitionView>)
    requires
        distinct_labels(acc),
    ensures
        distinct_labels(collect_sipser_targets(acc, ts)),
    decreases ts.len(),
{
    if ts.len() > 0 {
        let acc2 = add_sipser_target(acc, ts[0]);
        assert(distinct_labels(acc2)) by {
            if ts[0].direction == Direction::Left && !is_halt_label(ts[0].new_state)
                && !acc.contains(ts[0].new_state) {
                assert(forall|i: int| 0 <= i < acc.len() ==> acc[i] != ts[0].new_state);
                assert(forall|i: int| 0 <= i < acc.len() ==> acc2[i] == acc[i]);
            }
        }
        lemma_collect_sipser_distinct(acc2, ts.drop_first());
    }
}

/// The collected Left-move targets of a table are pairwise distinct, so each
/// destination's left-wall cluster is emitted exactly once.
pub proof fn lemma_sipser_targets_distinct(ts: Seq<TransitionView>)
    ensures
        distinct_labels(sipser_targets(ts)),
{
    lemma_collect_sipser_distinct(Seq::empty(), ts);
}

/// The Sipser-to-Infinite conversion of a table holds one rewritten record
/// per source record, plus exactly two cluster records per distinct
/// non-terminal Left-move destination.
pub proof fn lemma_sipser_conversion_len(ts: Seq<TransitionView>)
    ensures
        sipser_conversion(ts).len() == ts.len() + 2 * sipser_targets(ts).len(),
{
    lemma_sipser_clusters_len(sipser_targets(ts));
}

/// Sipser-to-Infinite: every Left-moving transition with a non-terminal
/// destination is retargeted to the left-wall check of its renamed
/// destination, and the output contains that check's two-record cluster.
pub proof fn lemma_left_wall_clusters_emitted(ts: Seq<TransitionView>, i: int)
    requires
        0 <= i < ts.len(),
        ts[i].direction == Direction::Left,
        !is_halt_label(ts[i].new_state),
    ensures
        ({
            let out = sipser_output(ts);
            let x = rename_label(sim_prefix(), ts[i].new_state);
            let j = wall_setup_spec(renamed_start()).len() + i;
            &&& 0 <= j < out.len()
            &&& out[j].new_state == check_left_wall_label(x)
            &&& exists|k: int|
                0 <= k && k + 2 <= out.len() && #[trigger] out.subrange(k, k + 2)
                    == sipser_cluster(x)
        }),
{
    let out = sipser_output(ts);
    let renamed = rename_table(sim_prefix(), ts);
    let x = rename_label(sim_prefix(), ts[i].new_state);
    assert(renamed[i] == rename_transition(sim_prefix(), ts[i]));
    assert(renamed[i].new_state == x);
    lemma_renamed_not_halt(ts[i].new_state);
    let su = wall_setup_spec(renamed_start());
    let rew = rewritten_sipser(renamed);
    let targets = sipser_targets(renamed);
    let clusters = sipser_clusters(targets);
    assert(out =~= su + rew + clusters);
    assert(rew[i] == rewrite_sipser(renamed[i]));
    assert(out[su.len() + i] == rew[i]);
    assert(rew[i].new_state == check_left_wall_label(x));
    lemma_collect_sipser_contains(Seq::empty(), renamed, i);
    assert(targets.contains(x));
    let tj = choose|w: int| 0 <= w < targets.len() && targets[w] == x;
    lemma_sipser_clusters_len(targets);
    lemma_sipser_clusters_at(targets, tj);
    let k = su.len() + rew.len() + 2 * tj;
    assert(out.subrange(k as int, k as int + 2) =~= sipser_cluster(x)) by {
        assert(forall|m: int|
            0 <= m < 2 ==> clusters.subrange(2 * tj, 2 * tj + 2)[m] == sipser_cluster(x)[m]);
    }
    assert(0 <= k as int && k as int + 2 <= out.len() && out.subrange(k as int, k as int + 2)
        == sipser_cluster(x));
}

} // verus!
