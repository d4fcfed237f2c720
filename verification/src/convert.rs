//! The whole conversion: split the text into lines, resolve the header,
//! parse the table, run the selected pipeline, and render the output text.

use vstd::prelude::*;
use vstd::string::{StrSliceExecFns, StringExecFns};

use crate::inf_to_sipser::{
    convert_simulation_transitions, generate_setup_transitions, infinite_conversion,
    setup_transitions_spec,
};
use crate::model::{
    concat_label, label_views, sim_prefix, start_label, tviews, MachineType, Transition,
    TransitionView,
};
use crate::parse::{
    machine_type_of, parse_line, parse_line_spec, ConversionError, ConversionErrorView,
    ParseErrorView, ParseTransitionError,
};
use crate::rename::{rename_original_states, rename_table};
use crate::render::{render_table, render_table_spec};
use crate::sipser_to_inf::{
    convert_sipser_to_infinite, generate_wall_setup_transitions, sipser_conversion,
    wall_setup_spec,
};

verus! {

/// Whether a line ends at position `k`: a newline, or a carriage return
/// directly before a newline.
pub open spec fn line_boundary_at(s: Seq<char>, k: int) -> bool {
    s[k] == '\n' || (s[k] == '\r' && k + 1 < s.len() && s[k + 1] == '\n')
}

/// The text split at line endings (newline or carriage return + newline),
/// keeping a final empty piece when the text ends with a line ending.
pub open spec fn split_nl(s: Seq<char>) -> Seq<Seq<char>>
    decreases s.len(),
{
    if s.len() == 0 {
        seq![Seq::<char>::empty()]
    } else if s[0] == '\n' {
        seq![Seq::<char>::empty()] + split_nl(s.drop_first())
    } else if s[0] == '\r' && s.len() >= 2 && s[1] == '\n' {
        seq![Seq::<char>::empty()] + split_nl(s.subrange(2, s.len() as int))
    } else {
        let rest = split_nl(s.drop_first());
        seq![seq![s[0]] + rest[0]] + rest.drop_first()
    }
}

/// The split always yields at least one piece.
pub proof fn lemma_split_nl_nonempty(s: Seq<char>)
    ensures
        split_nl(s).len() >= 1,
    decreases s.len(),
{
    if s.len() == 0 {
    } else if s[0] == '\n' {
        lemma_split_nl_nonempty(s.drop_first());
    } else if s[0] == '\r' && s.len() >= 2 && s[1] == '\n' {
        lemma_split_nl_nonempty(s.subrange(2, s.len() as int));
    } else {
        lemma_split_nl_nonempty(s.drop_first());
    }
}

/// The lines of the text: the split pieces, without the final empty piece a
/// trailing line ending leaves behind.
pub open spec fn content_lines(s: Seq<char>) -> Seq<Seq<char>> {
    let raw = split_nl(s);
    if raw.last().len() == 0 {
        raw.drop_last()
    } else {
        raw
    }
}

/// Scanning to the first line boundary splits off exactly the first line.
proof fn lemma_split_nl_step(s: Seq<char>, j: int)
    requires
        0 <= j <= s.len(),
        forall|k: int| 0 <= k < j ==> !line_boundary_at(s, k),
    ensures
        j == s.len() ==> split_nl(s) == seq![s],
        j < s.len() && s[j] == '\n' ==> split_nl(s) == seq![s.subrange(0, j)] + split_nl(
            s.subrange(j + 1, s.len() as int),
        ),
        j < s.len() && s[j] != '\n' && line_boundary_at(s, j) ==> split_nl(s) == seq![
            s.subrange(0, j),
        ] + split_nl(s.subrange(j + 2, s.len() as int)),
    decreases j,
{
    if j == 0 {
        if j == s.len() {
            assert(s =~= Seq::<char>::empty());
            assert(split_nl(s) =~= seq![s]);
        } else if s[0] == '\n' {
            assert(s.drop_first() =~= s.subrange(1, s.len() as int));
            assert(s.subrange(0, 0) =~= Seq::<char>::empty());
            assert(split_nl(s) =~= seq![s.subrange(0, 0)] + split_nl(
                s.subrange(1, s.len() as int),
            ));
        } else if line_boundary_at(s, 0) {
            assert(s[0] == '\r' && s.len() >= 2 && s[1] == '\n');
            assert(s.subrange(0, 0) =~= Seq::<char>::empty());
            assert(split_nl(s) =~= seq![s.subrange(0, 0)] + split_nl(
                s.subrange(2, s.len() as int),
            ));
        }
    } else {
        assert(!line_boundary_at(s, 0));
        assert(s[0] != '\n');
        assert(!(s[0] == '\r' && s.len() >= 2 && s[1] == '\n'));
        let st = s.drop_first();
        assert(forall|k: int| 0 <= k < j - 1 ==> !line_boundary_at(st, k)) by {
            assert(forall|k: int|
                0 <= k < j - 1 ==> (line_boundary_at(st, k) ==> line_boundary_at(s, k + 1)));
        }
        lemma_split_nl_step(st, j - 1);
        lemma_split_nl_nonempty(st);
        let rest = split_nl(st);
        if j == s.len() {
            assert(rest == seq![st]);
            assert(seq![s[0]] + rest[0] =~= s);
            assert(rest.drop_first() =~= Seq::<Seq<char>>::empty());
            assert(split_nl(s) =~= seq![s]);
        } else if s[j] == '\n' {
            assert(st[j - 1] == '\n');
            assert(rest == seq![st.subrange(0, j - 1)] + split_nl(
                st.subrange(j, st.len() as int),
            ));
            assert(rest[0] == st.subrange(0, j - 1));
            assert(seq![s[0]] + rest[0] =~= s.subrange(0, j));
            assert(rest.drop_first() =~= split_nl(st.subrange(j, st.len() as int)));
            assert(st.subrange(j, st.len() as int) =~= s.subrange(j + 1, s.len() as int));
            assert(split_nl(s) =~= seq![s.subrange(0, j)] + split_nl(
                s.subrange(j + 1, s.len() as int),
            ));
        } else if line_boundary_at(s, j) {
            assert(st[j - 1] != '\n' && line_boundary_at(st, j - 1)) by {
                assert(s[j] == '\r' && j + 1 < s.len() && s[j + 1] == '\n');
            }
            assert(rest == seq![st.subrange(0, j - 1)] + split_nl(
                st.subrange(j + 1, st.len() as int),
            ));
            assert(rest[0] == st.subrange(0, j - 1));
            assert(seq![s[0]] + rest[0] =~= s.subrange(0, j));
            assert(rest.drop_first() =~= split_nl(st.subrange(j + 1, st.len() as int)));
            assert(st.subrange(j + 1, st.len() as int) =~= s.subrange(j + 2, s.len() as int));
            assert(split_nl(s) =~= seq![s.subrange(0, j)] + split_nl(
                s.subrange(j + 2, s.len() as int),
            ));
        }
    }
}

/// Decides whether a line ends at position `k` of the text.
fn is_line_boundary(s: &str, k: usize, n: usize) -> (r: bool)
    requires
        n == s@.len(),
        k < n,
    ensures
        r == line_boundary_at(s@, k as int),
{
    let c = s.get_char(k);
    if c == '\n' {
        true
    } else if c == '\r' {
        k + 1 < n && s.get_char(k + 1) == '\n'
    } else {
        false
    }
}

/// Splits the text into its lines, as `content_lines` describes.
fn split_lines(content: &str) -> (lines: Vec<String>)
    ensures
        label_views(lines@) == content_lines(content@),
{
    let n = content.unicode_len();
    let mut lines: Vec<String> = Vec::new();
    let mut i: usize = 0;
    proof {
        assert(label_views(lines@) =~= Seq::<Seq<char>>::empty());
        assert(content@.subrange(0, n as int) =~= content@);
        assert(Seq::<Seq<char>>::empty() + split_nl(content@) =~= split_nl(content@));
    }
    loop
        invariant_except_break
            i <= n,
            n == content@.len(),
            split_nl(content@) == label_views(lines@) + split_nl(
                content@.subrange(i as int, n as int),
            ),
        ensures
            label_views(lines@) == content_lines(content@),
        decreases n - i,
    {
        let ghost remaining = content@.subrange(i as int, n as int);
        let mut j: usize = i;
        while j < n && !is_line_boundary(content, j, n)
            invariant
                i <= j <= n,
                n == content@.len(),
                forall|k: int| i <= k < j ==> !line_boundary_at(content@, k),
            decreases n - j,
        {
            j += 1;
        }
        proof {
            assert(forall|k: int|
                0 <= k < j - i ==> (line_boundary_at(remaining, k) == line_boundary_at(
                    content@,
                    k + i,
                )));
            lemma_split_nl_step(remaining, j as int - i as int);
            assert(remaining.subrange(0, j as int - i as int) =~= content@.subrange(
                i as int,
                j as int,
            ));
        }
        let ghost old_views = label_views(lines@);
        if j < n {
            let line = content.substring_char(i, j).to_owned();
            lines.push(line);
            proof {
                assert(label_views(lines@) =~= old_views.push(content@.subrange(i as int, j as int)));
            }
            let next: usize = if content.get_char(j) == '\n' {
                j + 1
            } else {
                proof {
                    assert(line_boundary_at(content@, j as int));
                }
                j + 2
            };
            proof {
                if content@[j as int] == '\n' {
                    assert(remaining.subrange(j as int - i as int + 1, remaining.len() as int)
                        =~= content@.subrange(j as int + 1, n as int));
                } else {
                    assert(remaining.subrange(j as int - i as int + 2, remaining.len() as int)
                        =~= content@.subrange(j as int + 2, n as int));
                }
                assert(split_nl(content@) =~= label_views(lines@) + split_nl(
                    content@.subrange(next as int, n as int),
                ));
            }
            i = next;
        } else {
            if i < n {
                let line = content.substring_char(i, n).to_owned();
                lines.push(line);
                proof {
                    assert(label_views(lines@) =~= old_views.push(remaining));
                    assert(split_nl(remaining) == seq![remaining]);
                    let raw = split_nl(content@);
                    assert(raw == old_views + seq![remaining]);
                    assert(raw =~= label_views(lines@));
                    assert(raw.last() == remaining);
                    assert(raw.last().len() > 0);
                    assert(content_lines(content@) == raw);
                }
            } else {
                proof {
                    let raw = split_nl(content@);
                    assert(remaining =~= Seq::<char>::empty());
                    assert(split_nl(remaining) == seq![Seq::<char>::empty()]);
                    assert(raw == label_views(lines@) + seq![Seq::<char>::empty()]);
                    assert(raw.last().len() == 0);
                    assert(content_lines(content@) == raw.drop_last());
                    assert(raw.drop_last() =~= label_views(lines@));
                }
            }
            break;
        }
    }
    lines
}

/// What parsing a sequence of lines yields: the records in order, with blank
/// or comment-only lines dropped, or the first failure.
pub open spec fn parse_table_spec(ls: Seq<Seq<char>>) -> Result<Seq<TransitionView>, ParseErrorView>
    decreases ls.len(),
{
    if ls.len() == 0 {
        Ok(Seq::empty())
    } else {
        match parse_line_spec(ls[0]) {
            Err(ParseErrorView::Empty) => parse_table_spec(ls.drop_first()),
            Err(e) => Err(e),
            Ok(t) => match parse_table_spec(ls.drop_first()) {
                Ok(rest) => Ok(seq![t] + rest),
                Err(e) => Err(e),
            },
        }
    }
}

/// Parses every line after the header, dropping blank or comment-only lines
/// and stopping at the first failure.
fn parse_table(lines: &Vec<String>) -> (r: Result<Vec<Transition>, ParseTransitionError>)
    requires
        lines@.len() >= 1,
    ensures
        r matches Ok(ts) ==> parse_table_spec(label_views(lines@).drop_first()) == Ok::<
            Seq<TransitionView>,
            ParseErrorView,
        >(tviews(ts@)),
        r matches Err(e) ==> parse_table_spec(label_views(lines@).drop_first()) == Err::<
            Seq<TransitionView>,
            ParseErrorView,
        >(e@),
{
    let ghost ls = label_views(lines@).drop_first();
    let mut acc: Vec<Transition> = Vec::new();
    let mut i: usize = 1;
    proof {
        assert(ls.subrange(0, ls.len() as int) =~= ls);
        assert(tviews(acc@) =~= Seq::<TransitionView>::empty());
        if let Ok(rest) = parse_table_spec(ls) {
            assert(tviews(acc@) + rest =~= rest);
        }
    }
    while i < lines.len()
        invariant
            1 <= i <= lines.len(),
            ls == label_views(lines@).drop_first(),
            ls.len() == lines@.len() - 1,
            match parse_table_spec(ls.subrange(i - 1, ls.len() as int)) {
                Ok(rest) => parse_table_spec(ls) == Ok::<Seq<TransitionView>, ParseErrorView>(
                    tviews(acc@) + rest,
                ),
                Err(e) => parse_table_spec(ls) == Err::<Seq<TransitionView>, ParseErrorView>(e),
            },
        decreases lines.len() - i,
    {
        let ghost suffix = ls.subrange(i - 1, ls.len() as int);
        proof {
            assert(suffix[0] == ls[i - 1]);
            assert(ls[i - 1] == lines@[i as int]@);
            assert(suffix.drop_first() =~= ls.subrange(i as int, ls.len() as int));
        }
        match parse_line(lines[i].as_str()) {
            Ok(t) => {
                let ghost old_acc = tviews(acc@);
                let ghost tview = t@;
                acc.push(t);
                proof {
                    assert(tviews(acc@) =~= old_acc + seq![tview]);
                    if let Ok(rest) = parse_table_spec(ls.subrange(i as int, ls.len() as int)) {
                        assert(old_acc + (seq![tview] + rest) =~= tviews(acc@) + rest);
                    }
                }
            },
            Err(e) => {
                let keep_going = match &e {
                    ParseTransitionError::Empty => true,
                    _ => false,
                };
                if !keep_going {
                    proof {
                        assert(parse_table_spec(suffix) == Err::<
                            Seq<TransitionView>,
                            ParseErrorView,
                        >(e@));
                    }
                    return Err(e);
                }
            },
        }
        i += 1;
    }
    proof {
        assert(ls.subrange(ls.len() as int, ls.len() as int) =~= Seq::<Seq<char>>::empty());
        assert(parse_table_spec(ls.subrange(ls.len() as int, ls.len() as int)) == Ok::<
            Seq<TransitionView>,
            ParseErrorView,
        >(Seq::empty()));
        assert(tviews(acc@) + Seq::<TransitionView>::empty() =~= tviews(acc@));
    }
    Ok(acc)
}

/// The renamed start-state label both pipelines hand control to.
pub open spec fn renamed_start() -> Seq<char> {
    sim_prefix() + start_label()
}

/// The two leading comment lines of the Infinite-to-Sipser output.
pub open spec fn infinite_header() -> Seq<char> {
    "; --- Infinite-to-Sipser Simulation ---\n; Start state: 0\n"@
}

/// The two leading comment lines of the Sipser-to-Infinite output.
pub open spec fn sipser_header() -> Seq<char> {
    "; --- Sipser-to-Infinite Simulation ---\n; Start state: 0\n"@
}

/// The whole output text for a parsed table: the header comment, then the
/// setup cluster and the converted, renamed table, rendered line by line.
pub open spec fn output_text(mt: MachineType, ts: Seq<TransitionView>) -> Seq<char> {
    match mt {
        MachineType::Infinite => infinite_header() + render_table_spec(
            setup_transitions_spec(renamed_start()) + infinite_conversion(
                rename_table(sim_prefix(), ts),
            ),
        ),
        MachineType::Sipser => sipser_header() + render_table_spec(
            wall_setup_spec(renamed_start()) + sipser_conversion(
                rename_table(sim_prefix(), ts),
            ),
        ),
    }
}

/// What converting a whole input text yields: the selected machine type and
/// the output text, or the first header or parse failure.
pub open spec fn conversion_spec(content: Seq<char>) -> Result<
    (MachineType, Seq<char>),
    ConversionErrorView,
> {
    let ls = content_lines(content);
    if ls.len() == 0 {
        Err(ConversionErrorView::InvalidHeader("File is empty"@))
    } else {
        match machine_type_of(ls[0]) {
            None => Err(ConversionErrorView::InvalidHeader(ls[0])),
            Some(mt) => match parse_table_spec(ls.drop_first()) {
                Err(e) => Err(ConversionErrorView::ParseError(e)),
                Ok(ts) => Ok((mt, output_text(mt, ts))),
            },
        }
    }
}

/// Converts a whole input text between the two conventions: resolves the
/// header, parses the table, renames the embedded states, runs the selected
/// pipeline, and renders the output text.
pub fn convert(content: &str) -> (r: Result<(MachineType, String), ConversionError>)
    ensures
        r matches Ok(p) ==> conversion_spec(content@) == Ok::<
            (MachineType, Seq<char>),
            ConversionErrorView,
        >((p.0, p.1@)),
        r matches Err(e) ==> conversion_spec(content@) == Err::<
            (MachineType, Seq<char>),
            ConversionErrorView,
        >(e@),
{
    let lines = split_lines(content);
    let ghost ls = content_lines(content@);
    if lines.len() == 0 {
        return Err(ConversionError::InvalidHeader(String::from_str("File is empty")));
    }
    proof {
        assert(ls[0] == lines@[0]@);
    }
    let machine_type = match MachineType::from_str(lines[0].as_str()) {
        Ok(m) => m,
        Err(e) => {
            return Err(e);
        },
    };
    let original_transitions = match parse_table(&lines) {
        Ok(ts) => ts,
        Err(e) => {
            proof {
                assert(label_views(lines@).drop_first() =~= ls.drop_first());
            }
            return Err(ConversionError::ParseError(e));
        },
    };
    proof {
        assert(label_views(lines@).drop_first() =~= ls.drop_first());
    }
    let renamed = rename_original_states(&original_transitions, "sim_");
    let renamed_start_state = concat_label("sim_", "0");
    match machine_type {
        MachineType::Infinite => {
            let mut all = generate_setup_transitions(renamed_start_state.as_str());
            let ghost setup = tviews(all@);
            let mut conv = convert_simulation_transitions(&renamed);
            let ghost convv = tviews(conv@);
            all.append(&mut conv);
            proof {
                assert(tviews(all@) =~= setup + convv);
            }
            let body = render_table(&all);
            let mut text = String::from_str(
                "; --- Infinite-to-Sipser Simulation ---\n; Start state: 0\n",
            );
            text.append(body.as_str());
            Ok((MachineType::Infinite, text))
        },
        MachineType::Sipser => {
            let mut all = generate_wall_setup_transitions(renamed_start_state.as_str());
            let ghost setup = tviews(all@);
            let mut conv = convert_sipser_to_infinite(&renamed);
            let ghost convv = tviews(conv@);
            all.append(&mut conv);
            proof {
                assert(tviews(all@) =~= setup + convv);
            }
            let body = render_table(&all);
            let mut text = String::from_str(
                "; --- Sipser-to-Infinite Simulation ---\n; Start state: 0\n",
            );
            text.append(body.as_str());
            Ok((MachineType::Sipser, text))
        },
    }
}

} // verus!
