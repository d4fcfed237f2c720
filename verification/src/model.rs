//! The transition-record data model: directions, machine types, records,
//! their mathematical views, and the terminal-label convention.

use vstd::prelude::*;
use vstd::string::StringExecFns;

verus! {

/// Direction a transition moves the tape head.
#[derive(Clone, Copy, Debug, PartialEq, Eq, Structural)]
pub enum Direction {
    Left,
    Right,
    Stay,
}

/// Which tape-boundary convention the source table uses; selects the pipeline.
#[derive(Clone, Copy, Debug, PartialEq, Eq, Structural)]
pub enum MachineType {
    Infinite,
    Sipser,
}

/// One transition rule: in `current_state`, reading `current_symbol`, write
/// `new_symbol`, move `direction`, and enter `new_state`.
#[derive(Debug, PartialEq, Eq)]
pub struct Transition {
    pub current_state: String,
    pub current_symbol: char,
    pub new_symbol: char,
    pub direction: Direction,
    pub new_state: String,
}

/// Mathematical value of a transition: labels as character sequences.
#[verifier::ext_equal]
pub struct TransitionView {
    pub current_state: Seq<char>,
    pub current_symbol: char,
    pub new_symbol: char,
    pub direction: Direction,
    pub new_state: Seq<char>,
}

impl View for Transition {
    type V = TransitionView;

    open spec fn view(&self) -> TransitionView {
        TransitionView {
            current_state: self.current_state@,
            current_symbol: self.current_symbol,
            new_symbol: self.new_symbol,
            direction: self.direction,
            new_state: self.new_state@,
        }
    }
}

/// Shorthand constructor for transition views in specifications.
pub open spec fn tv(
    current_state: Seq<char>,
    current_symbol: char,
    new_symbol: char,
    direction: Direction,
    new_state: Seq<char>,
) -> TransitionView {
    TransitionView { current_state, current_symbol, new_symbol, direction, new_state }
}

/// The views of a sequence of records.
pub open spec fn tviews(ts: Seq<Transition>) -> Seq<TransitionView> {
    ts.map_values(|t: Transition| t@)
}

/// The views of a sequence of labels.
pub open spec fn label_views(ls: Seq<String>) -> Seq<Seq<char>> {
    ls.map_values(|l: String| l@)
}

/// The reserved prefix that marks a terminal state label.
pub open spec fn halt_prefix() -> Seq<char> {
    "halt"@
}

/// The reserved namespace prefix placed on every embedded (non-terminal) label.
pub open spec fn sim_prefix() -> Seq<char> {
    "sim_"@
}

/// A label is terminal exactly when it starts with the reserved prefix.
pub open spec fn is_halt_label(s: Seq<char>) -> bool {
    s.len() >= halt_prefix().len() && s.subrange(0, halt_prefix().len() as int) == halt_prefix()
}

impl Transition {
    /// A field-for-field copy of the record.
    pub fn duplicate(&self) -> (t: Transition)
        ensures
            t@ == self@,
    {
        Transition {
            current_state: self.current_state.clone(),
            current_symbol: self.current_symbol,
            new_symbol: self.new_symbol,
            direction: self.direction,
            new_state: self.new_state.clone(),
        }
    }
}

/// Decides whether a state label is terminal (starts with the reserved prefix).
pub fn is_halt_state(state: &str) -> (r: bool)
    ensures
        r == is_halt_label(state@),
{
    proof {
        reveal_strlit("halt");
    }
    let n = state.unicode_len();
    if n < 4 {
        return false;
    }
    let r = state.get_char(0) == 'h' && state.get_char(1) == 'a' && state.get_char(2) == 'l'
        && state.get_char(3) == 't';
    proof {
        if r {
            assert(state@.subrange(0, 4) =~= halt_prefix());
        } else {
            assert(state@.subrange(0, 4) != halt_prefix()) by {
                if state@.subrange(0, 4) == halt_prefix() {
                    assert(state@[0] == halt_prefix()[0]);
                    assert(state@[1] == halt_prefix()[1]);
                    assert(state@[2] == halt_prefix()[2]);
                    assert(state@[3] == halt_prefix()[3]);
                }
            }
        }
    }
    r
}

/// The start-state label every generated table begins in.
pub open spec fn start_label() -> Seq<char> {
    "0"@
}

/// Builds a synthesized control-state label: a reserved role prefix
/// concatenated with an existing label.
pub fn concat_label(prefix: &str, state: &str) -> (r: String)
    ensures
        r@ == prefix@ + state@,
{
    String::from_str(prefix).concat(state)
}

/// Decides whether one of the collected labels equals the given one.
pub fn contains_label(v: &Vec<String>, s: &String) -> (r: bool)
    ensures
        r == label_views(v@).contains(s@),
{
    let mut i: usize = 0;
    while i < v.len()
        invariant
            i <= v.len(),
            forall|j: int| 0 <= j < i ==> v@[j]@ != s@,
        decreases v.len() - i,
    {
        if v[i].eq(s) {
            proof {
                assert(label_views(v@)[i as int] == s@);
            }
            return true;
        }
        i += 1;
    }
    proof {
        assert(forall|j: int| 0 <= j < label_views(v@).len() ==> label_views(v@)[j] != s@);
    }
    false
}

/// What a rewritten transition's destination becomes: a terminal destination
/// is kept verbatim, any other is sent to the synthesized check state.
pub open spec fn next_state_spec(original_new_state: Seq<char>, check_state: Seq<char>) -> Seq<
    char,
> {
    if is_halt_label(original_new_state) {
        original_new_state
    } else {
        check_state
    }
}

/// Picks the destination of a rewritten transition: terminal destinations
/// pass through, all others go to the given check state.
pub fn get_next_state(original_new_state: &str, check_state: String) -> (r: String)
    ensures
        r@ == next_state_spec(original_new_state@, check_state@),
{
    if is_halt_state(original_new_state) {
        original_new_state.to_owned()
    } else {
        check_state
    }
}

} // verus!
