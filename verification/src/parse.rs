//! The header resolver and the line parser: comment stripping, whitespace
//! tokenization, and the five-token transition syntax, together with the
//! parse-failure taxonomy.

use vstd::prelude::*;
use vstd::string::StrSliceExecFns;

use crate::model::{label_views, tv, Direction, MachineType, Transition, TransitionView};

verus! {

/// Why a transition line was rejected (or silently dropped, for `Empty`).
#[derive(Debug, PartialEq, Eq)]
pub enum ParseTransitionError {
    Empty,
    InvalidPartCount(usize),
    InvalidDirection(String),
    InvalidSymbol(String),
}

/// Mathematical value of a parse failure.
pub enum ParseErrorView {
    Empty,
    InvalidPartCount(int),
    InvalidDirection(Seq<char>),
    InvalidSymbol(Seq<char>),
}

impl View for ParseTransitionError {
    type V = ParseErrorView;

    open spec fn view(&self) -> ParseErrorView {
        match self {
            ParseTransitionError::Empty => ParseErrorView::Empty,
            ParseTransitionError::InvalidPartCount(c) => ParseErrorView::InvalidPartCount(
                *c as int,
            ),
            ParseTransitionError::InvalidDirection(d) => ParseErrorView::InvalidDirection(d@),
            ParseTransitionError::InvalidSymbol(s) => ParseErrorView::InvalidSymbol(s@),
        }
    }
}

/// Why a whole conversion failed: a bad header, or a bad transition line.
#[derive(Debug, PartialEq, Eq)]
pub enum ConversionError {
    InvalidHeader(String),
    ParseError(ParseTransitionError),
}

/// Mathematical value of a conversion failure.
pub enum ConversionErrorView {
    InvalidHeader(Seq<char>),
    ParseError(ParseErrorView),
}

impl View for ConversionError {
    type V = ConversionErrorView;

    open spec fn view(&self) -> ConversionErrorView {
        match self {
            ConversionError::InvalidHeader(s) => ConversionErrorView::InvalidHeader(s@),
            ConversionError::ParseError(e) => ConversionErrorView::ParseError(e@),
        }
    }
}

/// Whether a code point has the Unicode White_Space property.
pub open spec fn is_space_code(n: u32) -> bool {
    ||| n == 0x09
    ||| n == 0x0A
    ||| n == 0x0B
    ||| n == 0x0C
    ||| n == 0x0D
    ||| n == 0x20
    ||| n == 0x85
    ||| n == 0xA0
    ||| n == 0x1680
    ||| (0x2000 <= n && n <= 0x200A)
    ||| n == 0x2028
    ||| n == 0x2029
    ||| n == 0x202F
    ||| n == 0x205F
    ||| n == 0x3000
}

/// The characters that separate tokens and are trimmed from a line: the
/// Unicode White_Space characters.
pub open spec fn is_space_char(c: char) -> bool {
    is_space_code(c as u32)
}

/// Decides whether a character separates tokens.
pub fn is_space(c: char) -> (r: bool)
    ensures
        r == is_space_char(c),
{
    let n = c as u32;
    n == 0x09 || n == 0x0A || n == 0x0B || n == 0x0C || n == 0x0D || n == 0x20 || n == 0x85
        || n == 0xA0 || n == 0x1680 || (0x2000 <= n && n <= 0x200A) || n == 0x2028 || n == 0x2029
        || n == 0x202F || n == 0x205F || n == 0x3000
}

/// The position of the first comment delimiter, or the length if none.
pub open spec fn comment_start(s: Seq<char>) -> int
    decreases s.len(),
{
    if s.len() == 0 {
        0
    } else if s[0] == ';' {
        0
    } else {
        1 + comment_start(s.drop_first())
    }
}

/// The line with the first comment delimiter and everything after it removed.
pub open spec fn strip_comment(s: Seq<char>) -> Seq<char> {
    s.subrange(0, comment_start(s))
}

/// The position found by scanning for the first comment delimiter is the
/// comment start.
pub proof fn lemma_comment_start_at(s: Seq<char>, m: int)
    requires
        0 <= m <= s.len(),
        forall|k: int| 0 <= k < m ==> s[k] != ';',
        m < s.len() ==> s[m] == ';',
    ensures
        comment_start(s) == m,
    decreases s.len(),
{
    if m == 0 {
        if s.len() > 0 {
            assert(s[0] == ';');
        }
    } else {
        assert(s[0] != ';');
        lemma_comment_start_at(s.drop_first(), m - 1);
    }
}

/// A line split at whitespace into its maximal non-whitespace runs.
pub open spec fn split_ws(s: Seq<char>) -> Seq<Seq<char>>
    decreases s.len(),
{
    if s.len() == 0 {
        Seq::empty()
    } else if is_space_char(s[0]) {
        split_ws(s.drop_first())
    } else {
        let rest = split_ws(s.drop_first());
        if s.len() == 1 || is_space_char(s[1]) {
            seq![seq![s[0]]] + rest
        } else {
            seq![seq![s[0]] + rest[0]] + rest.drop_first()
        }
    }
}

/// Skipping one leading separator does not change the tokens.
pub proof fn lemma_split_ws_skip(s: Seq<char>)
    requires
        s.len() > 0,
        is_space_char(s[0]),
    ensures
        split_ws(s) == split_ws(s.subrange(1, s.len() as int)),
{
    assert(s.drop_first() =~= s.subrange(1, s.len() as int));
}

/// A maximal leading non-whitespace run is the first token, and the rest of
/// the tokens come from the remainder.
pub proof fn lemma_split_ws_token(s: Seq<char>, j: int)
    requires
        0 < j <= s.len(),
        forall|k: int| 0 <= k < j ==> !is_space_char(s[k]),
        j < s.len() ==> is_space_char(s[j]),
    ensures
        split_ws(s) == seq![s.subrange(0, j)] + split_ws(s.subrange(j, s.len() as int)),
    decreases j,
{
    if j == 1 {
        if s.len() == 1 {
            assert(s.drop_first() =~= s.subrange(1, s.len() as int));
            assert(s.subrange(0, 1) =~= seq![s[0]]);
            assert(split_ws(s) =~= seq![s.subrange(0, 1)] + split_ws(
                s.subrange(1, s.len() as int),
            ));
        } else {
            assert(is_space_char(s[1]));
            assert(s.drop_first() =~= s.subrange(1, s.len() as int));
            assert(s.subrange(0, 1) =~= seq![s[0]]);
            assert(split_ws(s) =~= seq![s.subrange(0, 1)] + split_ws(
                s.subrange(1, s.len() as int),
            ));
        }
    } else {
        assert(!is_space_char(s[1]));
        let st = s.drop_first();
        lemma_split_ws_token(st, j - 1);
        let rest = split_ws(st);
        assert(rest == seq![st.subrange(0, j - 1)] + split_ws(st.subrange(j - 1, st.len() as int)));
        assert(rest[0] == st.subrange(0, j - 1));
        assert(rest.drop_first() =~= split_ws(st.subrange(j - 1, st.len() as int)));
        assert(seq![s[0]] + rest[0] =~= s.subrange(0, j));
        assert(st.subrange(j - 1, st.len() as int) =~= s.subrange(j, s.len() as int));
        assert(split_ws(s) =~= seq![s.subrange(0, j)] + split_ws(s.subrange(j, s.len() as int)));
    }
}

/// A whole non-whitespace word followed by a separator (or by nothing) is the
/// first token of the concatenation.
pub proof fn lemma_split_ws_word(tok: Seq<char>, rest: Seq<char>)
    requires
        tok.len() > 0,
        forall|k: int| 0 <= k < tok.len() ==> !is_space_char(tok[k]),
        rest.len() == 0 || is_space_char(rest[0]),
    ensures
        split_ws(tok + rest) == seq![tok] + split_ws(rest),
{
    let s = tok + rest;
    assert(forall|k: int| 0 <= k < tok.len() ==> s[k] == tok[k]);
    if tok.len() < s.len() {
        assert(s[tok.len() as int] == rest[0]);
    }
    lemma_split_ws_token(s, tok.len() as int);
    assert(s.subrange(0, tok.len() as int) =~= tok);
    assert(s.subrange(tok.len() as int, s.len() as int) =~= rest);
}

/// A single leading blank does not change the tokens.
pub proof fn lemma_split_ws_blank(rest: Seq<char>)
    ensures
        split_ws(seq![' '] + rest) == split_ws(rest),
{
    let s = seq![' '] + rest;
    lemma_split_ws_skip(s);
    assert(s.subrange(1, s.len() as int) =~= rest);
}

/// What a direction token means, if it is one of the three recognized ones.
pub open spec fn direction_token(t: Seq<char>) -> Option<Direction> {
    if t == seq!['l'] {
        Some(Direction::Left)
    } else if t == seq!['r'] {
        Some(Direction::Right)
    } else if t == seq!['*'] {
        Some(Direction::Stay)
    } else {
        None
    }
}

impl Direction {
    /// Reads a direction token: "l", "r" or "*"; anything else is an
    /// invalid-direction failure carrying the raw text.
    pub fn from_str(s: &str) -> (r: Result<Direction, ParseTransitionError>)
        ensures
            r matches Ok(d) ==> direction_token(s@) == Some(d),
            r matches Err(e) ==> direction_token(s@) is None && e@
                == ParseErrorView::InvalidDirection(s@),
    {
        let n = s.unicode_len();
        if n == 1 {
            let c = s.get_char(0);
            if c == 'l' {
                proof {
                    assert(s@ =~= seq!['l']);
                }
                return Ok(Direction::Left);
            }
            if c == 'r' {
                proof {
                    assert(s@ =~= seq!['r']);
                }
                return Ok(Direction::Right);
            }
            if c == '*' {
                proof {
                    assert(s@ =~= seq!['*']);
                }
                return Ok(Direction::Stay);
            }
        }
        proof {
            assert(s@ != seq!['l'] && s@ != seq!['r'] && s@ != seq!['*']) by {
                if s@.len() == 1 {
                    assert(s@ == seq![s@[0]]) by {
                        assert(s@ =~= seq![s@[0]]);
                    }
                }
            }
        }
        Err(ParseTransitionError::InvalidDirection(s.to_owned()))
    }
}

/// Which machine type a header line selects, if either recognized token.
pub open spec fn machine_type_of(s: Seq<char>) -> Option<MachineType> {
    if s == ";S"@ {
        Some(MachineType::Sipser)
    } else if s == ";I"@ {
        Some(MachineType::Infinite)
    } else {
        None
    }
}

impl MachineType {
    /// Reads the header line: exactly one of the two recognized tokens;
    /// anything else is a header failure carrying the offending text.
    pub fn from_str(s: &str) -> (r: Result<MachineType, ConversionError>)
        ensures
            r matches Ok(m) ==> machine_type_of(s@) == Some(m),
            r matches Err(e) ==> machine_type_of(s@) is None && e@
                == ConversionErrorView::InvalidHeader(s@),
    {
        proof {
            reveal_strlit(";S");
            reveal_strlit(";I");
        }
        let n = s.unicode_len();
        if n == 2 && s.get_char(0) == ';' {
            let c1 = s.get_char(1);
            if c1 == 'S' {
                proof {
                    assert(s@ =~= ";S"@);
                }
                return Ok(MachineType::Sipser);
            }
            if c1 == 'I' {
                proof {
                    assert(s@ =~= ";I"@);
                }
                return Ok(MachineType::Infinite);
            }
        }
        proof {
            assert(s@ != ";S"@) by {
                if s@ == ";S"@ {
                    assert(s@[0] == ';' && s@[1] == 'S');
                }
            }
            assert(s@ != ";I"@) by {
                if s@ == ";I"@ {
                    assert(s@[0] == ';' && s@[1] == 'I');
                }
            }
        }
        Err(ConversionError::InvalidHeader(s.to_owned()))
    }
}

/// What parsing a line yields: the record; or the failure; or `Empty` for a
/// line that is blank or comment-only once the comment is stripped.
pub open spec fn parse_line_spec(line: Seq<char>) -> Result<TransitionView, ParseErrorView> {
    let toks = split_ws(strip_comment(line));
    if toks.len() == 0 {
        Err(ParseErrorView::Empty)
    } else if toks.len() != 5 {
        Err(ParseErrorView::InvalidPartCount(toks.len() as int))
    } else if toks[1].len() != 1 {
        Err(ParseErrorView::InvalidSymbol(toks[1]))
    } else if toks[2].len() != 1 {
        Err(ParseErrorView::InvalidSymbol(toks[2]))
    } else {
        match direction_token(toks[3]) {
            None => Err(ParseErrorView::InvalidDirection(toks[3])),
            Some(d) => Ok(tv(toks[0], toks[1][0], toks[2][0], d, toks[4])),
        }
    }
}

/// Splits the part of the line before any comment delimiter into its
/// whitespace-separated tokens.
fn tokenize(line: &str) -> (toks: Vec<String>)
    ensures
        label_views(toks@) == split_ws(strip_comment(line@)),
{
    let n = line.unicode_len();
    let mut m: usize = 0;
    while m < n && line.get_char(m) != ';'
        invariant
            m <= n,
            n == line@.len(),
            forall|k: int| 0 <= k < m ==> line@[k] != ';',
        decreases n - m,
    {
        m += 1;
    }
    proof {
        lemma_comment_start_at(line@, m as int);
    }
    let mut toks: Vec<String> = Vec::new();
    let mut i: usize = 0;
    while i < m
        invariant
            i <= m,
            m <= n,
            n == line@.len(),
            comment_start(line@) == m as int,
            label_views(toks@) + split_ws(line@.subrange(i as int, m as int)) == split_ws(
                strip_comment(line@),
            ),
        decreases m - i,
    {
        let ghost remaining = line@.subrange(i as int, m as int);
        if is_space(line.get_char(i)) {
            proof {
                lemma_split_ws_skip(remaining);
                assert(remaining.subrange(1, remaining.len() as int) =~= line@.subrange(
                    i as int + 1,
                    m as int,
                ));
            }
            i += 1;
        } else {
            let mut j: usize = i + 1;
            while j < m && !is_space(line.get_char(j))
                invariant
                    i < j <= m,
                    m <= n,
                    n == line@.len(),
                    forall|k: int| i <= k < j ==> !is_space_char(line@[k]),
                decreases m - j,
            {
                j += 1;
            }
            let tok = line.substring_char(i, j).to_owned();
            proof {
                lemma_split_ws_token(remaining, j as int - i as int);
                assert(remaining.subrange(0, j as int - i as int) =~= line@.subrange(
                    i as int,
                    j as int,
                ));
                assert(remaining.subrange(j as int - i as int, remaining.len() as int)
                    =~= line@.subrange(j as int, m as int));
                assert(tok@ == line@.subrange(i as int, j as int));
            }
            let ghost old_views = label_views(toks@);
            toks.push(tok);
            proof {
                assert(label_views(toks@) =~= old_views.push(line@.subrange(i as int, j as int)));
                assert(label_views(toks@) + split_ws(line@.subrange(j as int, m as int))
                    =~= old_views + (seq![line@.subrange(i as int, j as int)] + split_ws(
                    line@.subrange(j as int, m as int),
                )));
            }
            i = j;
        }
    }
    proof {
        assert(line@.subrange(m as int, m as int) =~= Seq::<char>::empty());
        assert(label_views(toks@) + split_ws(line@.subrange(m as int, m as int)) =~= label_views(
            toks@,
        ));
    }
    toks
}

/// Parses one transition line: strips any trailing comment, tokenizes on
/// whitespace, and requires exactly five tokens with single-character
/// symbols and a recognized direction token. A blank or comment-only line
/// yields `Empty`, which callers drop silently.
pub fn parse_line(line: &str) -> (r: Result<Transition, ParseTransitionError>)
    ensures
        r matches Ok(t) ==> parse_line_spec(line@) == Ok::<TransitionView, ParseErrorView>(t@),
        r matches Err(e) ==> parse_line_spec(line@) == Err::<TransitionView, ParseErrorView>(e@),
{
    let toks = tokenize(line);
    let ghost tokens = split_ws(strip_comment(line@));
    if toks.len() == 0 {
        return Err(ParseTransitionError::Empty);
    }
    if toks.len() != 5 {
        return Err(ParseTransitionError::InvalidPartCount(toks.len()));
    }
    proof {
        assert(toks@[1]@ == tokens[1]);
        assert(toks@[2]@ == tokens[2]);
        assert(toks@[3]@ == tokens[3]);
    }
    if toks[1].as_str().unicode_len() != 1 {
        return Err(ParseTransitionError::InvalidSymbol(toks[1].clone()));
    }
    let current_symbol = toks[1].as_str().get_char(0);
    if toks[2].as_str().unicode_len() != 1 {
        return Err(ParseTransitionError::InvalidSymbol(toks[2].clone()));
    }
    let new_symbol = toks[2].as_str().get_char(0);
    let direction = match Direction::from_str(toks[3].as_str()) {
        Ok(d) => d,
        Err(e) => {
            return Err(e);
        },
    };
    let r = Transition {
        current_state: toks[0].clone(),
        current_symbol,
        new_symbol,
        direction,
        new_state: toks[4].clone(),
    };
    proof {
        assert(toks@[0]@ == tokens[0]);
        assert(toks@[4]@ == tokens[4]);
        assert(r@ == tv(tokens[0], tokens[1][0], tokens[2][0], direction, tokens[4]));
    }
    Ok(r)
}

} // verus!
