//! The serializer: renders records to the five-token text form, collapsing
//! an unchanged symbol or state to the wildcard character, and renders whole
//! tables one line per record.

use vstd::prelude::*;
use vstd::string::StringExecFns;

use crate::model::{Direction, Transition, TransitionView};

verus! {

/// The one-character token of a direction.
pub open spec fn direction_char(d: Direction) -> char {
    match d {
        Direction::Left => 'l',
        Direction::Right => 'r',
        Direction::Stay => '*',
    }
}

impl Direction {
    /// The one-character token of this direction.
    pub fn to_char(&self) -> (c: char)
        ensures
            c == direction_char(*self),
    {
        match self {
            Direction::Left => 'l',
            Direction::Right => 'r',
            Direction::Stay => '*',
        }
    }
}

/// The text of one record: the five tokens separated by single blanks, with
/// the new symbol collapsed to the wildcard when it equals the current
/// symbol, and the new state collapsed likewise.
pub open spec fn render_spec(t: TransitionView) -> Seq<char> {
    t.current_state + seq![
        ' ',
        t.current_symbol,
        ' ',
        if t.new_symbol == t.current_symbol {
            '*'
        } else {
            t.new_symbol
        },
        ' ',
        direction_char(t.direction),
        ' ',
    ] + (if t.new_state == t.current_state {
        seq!['*']
    } else {
        t.new_state
    })
}

/// Relies on String::push: appends exactly the one given character.
#[verifier::external_body]
fn push_char(s: &mut String, c: char)
    ensures
        final(s)@ == old(s)@ + seq![c],
{
    s.push(c)
}

impl Transition {
    /// Renders this record as one line of table text (without the newline),
    /// applying wildcard compression.
    pub fn render(&self) -> (r: String)
        ensures
            r@ == render_spec(self@),
    {
        let mut s = String::new();
        s.append(self.current_state.as_str());
        push_char(&mut s, ' ');
        push_char(&mut s, self.current_symbol);
        push_char(&mut s, ' ');
        if self.new_symbol == self.current_symbol {
            push_char(&mut s, '*');
        } else {
            push_char(&mut s, self.new_symbol);
        }
        push_char(&mut s, ' ');
        push_char(&mut s, self.direction.to_char());
        push_char(&mut s, ' ');
        if self.new_state.eq(&self.current_state) {
            push_char(&mut s, '*');
        } else {
            s.append(self.new_state.as_str());
        }
        proof {
            assert(s@ =~= render_spec(self@));
        }
        s
    }
}

/// The text of a whole table: each record's line followed by a newline.
pub open spec fn render_table_spec(ts: Seq<TransitionView>) -> Seq<char>
    decreases ts.len(),
{
    if ts.len() == 0 {
        Seq::empty()
    } else {
        render_spec(ts[0]) + seq!['\n'] + render_table_spec(ts.drop_first())
    }
}

/// Extending a table by one record appends that record's line to the text.
pub proof fn lemma_render_table_push(u: Seq<TransitionView>, x: TransitionView)
    ensures
        render_table_spec(u.push(x)) == render_table_spec(u) + render_spec(x) + seq!['\n'],
    decreases u.len(),
{
    if u.len() == 0 {
        assert(u.push(x)[0] == x);
        assert(u.push(x).drop_first() =~= u);
        assert(render_table_spec(u.push(x)) =~= render_table_spec(u) + render_spec(x)
            + seq!['\n']);
    } else {
        assert(u.push(x)[0] == u[0]);
        assert(u.push(x).drop_first() =~= u.drop_first().push(x));
        lemma_render_table_push(u.drop_first(), x);
        assert(render_table_spec(u.push(x)) =~= render_table_spec(u) + render_spec(x)
            + seq!['\n']);
    }
}

/// Renders a whole table, one line per record, in order.
pub fn render_table(ts: &Vec<Transition>) -> (r: String)
    ensures
        r@ == render_table_spec(crate::model::tviews(ts@)),
{
    let ghost views = crate::model::tviews(ts@);
    let mut s = String::new();
    let mut i: usize = 0;
    while i < ts.len()
        invariant
            i <= ts.len(),
            views == crate::model::tviews(ts@),
            views.len() == ts@.len(),
            s@ == render_table_spec(views.subrange(0, i as int)),
        decreases ts.len() - i,
    {
        proof {
            assert(views[i as int] == ts@[i as int]@);
        }
        let line = ts[i].render();
        s.append(line.as_str());
        push_char(&mut s, '\n');
        proof {
            lemma_render_table_push(views.subrange(0, i as int), views[i as int]);
            assert(views.subrange(0, i as int + 1) =~= views.subrange(0, i as int).push(
                views[i as int],
            ));
        }
        i += 1;
    }
    proof {
        assert(views.subrange(0, views.len() as int) =~= views);
    }
    s
}

} // verus!
