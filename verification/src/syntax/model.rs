//! The mathematical model of the tokenizer: a Mealy machine folded over
//! the input text, one step per character plus one step for the end-of-
//! input sentinel.
//!
//! The model works in character offsets. `loc_of` turns an offset into
//! the row/column position the character source reports, so everything
//! the executable tokenizer produces is pinned to this model.

use vstd::prelude::*;
use crate::syntax::tokens::{
    is_digit,
    operator_of,
    separator_of,
    token_of,
    Operator,
    Separator,
    TokenModel,
    Whitespace,
};

verus! {

/// A source position. The row advances on newlines and the column counts
/// characters within the row; the column resets to zero on a newline.
pub struct LineCol {
    pub row: nat,
    pub col: nat,
}

/// The position of the character following one at `lc` holding `c`.
pub open spec fn advance_loc(lc: LineCol, c: char) -> LineCol {
    if c == '\n' {
        LineCol { row: lc.row + 1, col: 0 }
    } else {
        LineCol { row: lc.row, col: lc.col + 1 }
    }
}

/// The position of the character at offset `pos` of `input`. Offsets past
/// the end share the position just past the last character.
pub open spec fn loc_of(input: Seq<char>, pos: int) -> LineCol
    decreases pos,
{
    if pos <= 0 {
        LineCol { row: 0, col: 0 }
    } else if pos > input.len() {
        loc_of(input, input.len() as int)
    } else {
        advance_loc(loc_of(input, pos - 1), input[pos - 1])
    }
}

/// Rows and columns never exceed the offset they were reached at.
pub proof fn lemma_loc_of_bounds(input: Seq<char>, pos: int)
    requires
        0 <= pos,
    ensures
        loc_of(input, pos).row <= pos,
        loc_of(input, pos).col <= pos,
    decreases pos,
{
    if pos > 0 {
        if pos > input.len() {
            lemma_loc_of_bounds(input, input.len() as int);
        } else {
            lemma_loc_of_bounds(input, pos - 1);
        }
    }
}

/// Lexicographic order on positions: by row, then by column.
pub open spec fn loc_le(a: LineCol, b: LineCol) -> bool {
    a.row < b.row || (a.row == b.row && a.col <= b.col)
}

/// The mode of the lexer state machine.
#[derive(Debug, PartialEq, Eq, Structural, Clone, Copy)]
pub enum LexerState {
    Base,
    StringLit,
    Comment,
    Operator,
    Number { parsing_decimals: bool },
    Invalid,
}

/// A token of the model: its category and the span of character offsets
/// it covers, the end exclusive.
pub struct SpecTok {
    pub tok: TokenModel,
    pub start: nat,
    pub end: nat,
}

/// The machine between two characters: its mode, the offset at which the
/// pending token begins, and everything emitted so far. The pending
/// buffer is not stored: it is always the input between `start` and the
/// current offset (after the opening quote, in a string).
pub struct LexModel {
    pub state: LexerState,
    pub start: nat,
    pub toks: Seq<SpecTok>,
}

/// The two ways a run can fail.
#[derive(Debug, PartialEq, Eq, Structural, Clone, Copy)]
pub enum LexErrorKind {
    UnterminatedString,
    InvalidNumber,
}

/// A failed run: the kind of failure, the offset whose position is
/// reported, and the tokens emitted before the failure.
pub struct ErrInfo {
    pub kind: LexErrorKind,
    pub at: nat,
    pub toks: Seq<SpecTok>,
}

/// The character the machine sees at `pos`: the input character, or the
/// sentinel at and past the end.
pub open spec fn char_at(input: Seq<char>, pos: int) -> char {
    if 0 <= pos < input.len() {
        input[pos]
    } else {
        '\0'
    }
}

/// The one-character lookahead at `pos`.
pub open spec fn lookahead_at(input: Seq<char>, pos: int) -> Option<char> {
    if 0 <= pos && pos + 1 < input.len() {
        Some(input[pos + 1])
    } else {
        None
    }
}

/// The machine before any character: base mode, nothing emitted.
pub open spec fn init_model() -> LexModel {
    LexModel { state: LexerState::Base, start: 0, toks: Seq::empty() }
}

/// Closes the pending buffer at `pos`: if it is non-empty, its text is
/// classified and appended as a token spanning `m.start` to `pos`.
pub open spec fn flush(input: Seq<char>, pos: int, m: LexModel) -> Seq<SpecTok> {
    if m.start < pos {
        m.toks.push(
            SpecTok {
                tok: token_of(input.subrange(m.start as int, pos)),
                start: m.start,
                end: pos as nat,
            },
        )
    } else {
        m.toks
    }
}

/// One step of the base mode. The sentinel flushes the buffer; a quote
/// or a `--` lookahead opens a string or comment; a digit or dot on an
/// empty buffer opens a number; a separator flushes the buffer and is
/// emitted itself, an operator instead opening the operator mode; any
/// other character accumulates.
pub open spec fn base_step(input: Seq<char>, pos: int, m: LexModel) -> LexModel {
    let c = char_at(input, pos);
    if c == '\0' {
        LexModel { state: LexerState::Base, start: (pos + 1) as nat, toks: flush(input, pos, m) }
    } else if c == '"' {
        LexModel {
            state: LexerState::StringLit,
            start: pos as nat,
            toks: flush(input, pos, m),
        }
    } else if c == '-' && lookahead_at(input, pos) == Some('-') {
        LexModel { state: LexerState::Comment, start: pos as nat, toks: flush(input, pos, m) }
    } else if (is_digit(c) || c == '.') && m.start == pos {
        LexModel {
            state: LexerState::Number { parsing_decimals: c == '.' },
            start: pos as nat,
            toks: m.toks,
        }
    } else {
        let sep = separator_of(seq![c]);
        if sep == Separator::Invalid {
            LexModel { state: LexerState::Base, start: m.start, toks: m.toks }
        } else if sep matches Separator::Operator(_) {
            LexModel {
                state: LexerState::Operator,
                start: pos as nat,
                toks: flush(input, pos, m),
            }
        } else {
            LexModel {
                state: LexerState::Base,
                start: (pos + 1) as nat,
                toks: flush(input, pos, m).push(
                    SpecTok {
                        tok: TokenModel::Separator(sep),
                        start: pos as nat,
                        end: (pos + 1) as nat,
                    },
                ),
            }
        }
    }
}

/// One step of the string mode: the sentinel or a newline fails the run,
/// a quote closes the literal, anything else accumulates.
pub open spec fn str_step(input: Seq<char>, pos: int, m: LexModel) -> Result<LexModel, ErrInfo> {
    let c = char_at(input, pos);
    if c == '\0' || c == '\n' {
        Err(ErrInfo { kind: LexErrorKind::UnterminatedString, at: m.start, toks: m.toks })
    } else if c == '"' {
        Ok(
            LexModel {
                state: LexerState::Base,
                start: (pos + 1) as nat,
                toks: m.toks.push(
                    SpecTok {
                        tok: TokenModel::StrLit(input.subrange(m.start as int + 1, pos)),
                        start: m.start,
                        end: (pos + 1) as nat,
                    },
                ),
            },
        )
    } else {
        Ok(LexModel { state: LexerState::StringLit, start: m.start, toks: m.toks })
    }
}

/// One step of the comment mode: a newline emits a synthetic newline
/// token and returns to base mode; everything else is discarded.
pub open spec fn comment_step(input: Seq<char>, pos: int, m: LexModel) -> LexModel {
    let c = char_at(input, pos);
    if c == '\n' {
        LexModel {
            state: LexerState::Base,
            start: (pos + 1) as nat,
            toks: m.toks.push(
                SpecTok {
                    tok: TokenModel::Separator(Separator::Whitespace(Whitespace::Newline)),
                    start: pos as nat,
                    end: (pos + 1) as nat,
                },
            ),
        }
    } else {
        LexModel { state: LexerState::Comment, start: m.start, toks: m.toks }
    }
}

/// One step of the operator mode: if the buffered character extends to a
/// two-character operator it is emitted as one token; otherwise the
/// single character is emitted and the current character is dispatched
/// into the base mode again.
pub open spec fn op_step(input: Seq<char>, pos: int, m: LexModel) -> LexModel {
    let c = char_at(input, pos);
    let two = input.subrange(m.start as int, pos).push(c);
    if operator_of(two) != Operator::Invalid {
        LexModel {
            state: LexerState::Base,
            start: (pos + 1) as nat,
            toks: m.toks.push(
                SpecTok {
                    tok: TokenModel::Separator(Separator::Operator(operator_of(two))),
                    start: m.start,
                    end: (pos + 1) as nat,
                },
            ),
        }
    } else {
        let single = operator_of(input.subrange(m.start as int, pos));
        let m2 = LexModel {
            state: LexerState::Base,
            start: pos as nat,
            toks: m.toks.push(
                SpecTok {
                    tok: TokenModel::Separator(Separator::Operator(single)),
                    start: m.start,
                    end: pos as nat,
                },
            ),
        };
        base_step(input, pos, m2)
    }
}

/// One step of the number mode: a second dot fails the run, a dot or a
/// digit accumulates, and anything else emits the number and dispatches
/// the current character into the base mode again.
pub open spec fn num_step(input: Seq<char>, pos: int, m: LexModel, decimals: bool) -> Result<
    LexModel,
    ErrInfo,
> {
    let c = char_at(input, pos);
    if c == '.' && decimals {
        Err(ErrInfo { kind: LexErrorKind::InvalidNumber, at: m.start, toks: m.toks })
    } else if c == '.' {
        Ok(
            LexModel {
                state: LexerState::Number { parsing_decimals: true },
                start: m.start,
                toks: m.toks,
            },
        )
    } else if is_digit(c) {
        Ok(
            LexModel {
                state: LexerState::Number { parsing_decimals: decimals },
                start: m.start,
                toks: m.toks,
            },
        )
    } else {
        let m2 = LexModel {
            state: LexerState::Base,
            start: pos as nat,
            toks: m.toks.push(
                SpecTok {
                    tok: TokenModel::Number(input.subrange(m.start as int, pos)),
                    start: m.start,
                    end: pos as nat,
                },
            ),
        };
        Ok(base_step(input, pos, m2))
    }
}

/// One step of the machine: total over every mode and character.
pub open spec fn step(input: Seq<char>, pos: int, m: LexModel) -> Result<LexModel, ErrInfo> {
    match m.state {
        LexerState::Base => Ok(base_step(input, pos, m)),
        LexerState::StringLit => str_step(input, pos, m),
        LexerState::Comment => Ok(comment_step(input, pos, m)),
        LexerState::Operator => Ok(op_step(input, pos, m)),
        LexerState::Number { parsing_decimals } => num_step(input, pos, m, parsing_decimals),
        LexerState::Invalid => Err(
            ErrInfo { kind: LexErrorKind::InvalidNumber, at: pos as nat, toks: m.toks },
        ),
    }
}

/// The machine after the first `pos` characters, or the failure that
/// ended the run before that.
pub open spec fn state_at(input: Seq<char>, pos: int) -> Result<LexModel, ErrInfo>
    decreases pos,
{
    if pos <= 0 {
        Ok(init_model())
    } else {
        match state_at(input, pos - 1) {
            Ok(m) => step(input, pos - 1, m),
            Err(e) => Err(e),
        }
    }
}

/// The outcome of a whole run: the tokens in order, and the failure that
/// ended the run, if any.
pub struct RunOut {
    pub toks: Seq<SpecTok>,
    pub err: Option<ErrInfo>,
}

/// Tokenizing a whole text: the empty text produces nothing; otherwise
/// the machine is folded over every character and the sentinel.
pub open spec fn lex_spec(input: Seq<char>) -> RunOut {
    if input.len() == 0 {
        RunOut { toks: Seq::empty(), err: None }
    } else {
        match state_at(input, input.len() as int + 1) {
            Ok(m) => RunOut { toks: m.toks, err: None },
            Err(e) => RunOut { toks: e.toks, err: Some(e) },
        }
    }
}

/// The structural invariant the fold maintains: the pending token starts
/// at or before the current offset, strictly before it in the modes that
/// already consumed their first character, and exactly one character
/// before it in operator mode.
pub open spec fn inv_model(pos: int, m: LexModel) -> bool {
    &&& m.start <= pos
    &&& (m.state matches LexerState::StringLit ==> m.start < pos)
    &&& (m.state matches LexerState::Number { .. } ==> m.start < pos)
    &&& (m.state matches LexerState::Operator ==> pos == m.start + 1)
}

/// One step preserves the structural invariant.
pub proof fn lemma_step_inv(input: Seq<char>, pos: int, m: LexModel)
    requires
        0 <= pos,
        inv_model(pos, m),
    ensures
        step(input, pos, m) matches Ok(m2) ==> inv_model(pos + 1, m2),
{
}

/// The machine state at any point satisfies the structural invariant.
pub proof fn lemma_state_at_inv(input: Seq<char>, pos: int)
    requires
        0 <= pos,
    ensures
        state_at(input, pos) matches Ok(m) ==> inv_model(pos, m),
    decreases pos,
{
    if pos > 0 {
        lemma_state_at_inv(input, pos - 1);
        match state_at(input, pos - 1) {
            Ok(m) => lemma_step_inv(input, pos - 1, m),
            Err(_) => (),
        }
    }
}

/// One step only appends to the emitted tokens: at most two of them, and
/// a failing step appends none.
pub proof fn lemma_step_toks(input: Seq<char>, pos: int, m: LexModel)
    ensures
        step(input, pos, m) matches Ok(m2) ==> {
            &&& m.toks.is_prefix_of(m2.toks)
            &&& m2.toks.len() <= m.toks.len() + 2
        },
        step(input, pos, m) matches Err(e) ==> e.toks == m.toks,
{
    assert forall|t: Seq<SpecTok>, s: SpecTok| t.is_prefix_of(t.push(s)) by {
        assert(t =~= t.push(s).subrange(0, t.len() as int));
    }
    assert(m.toks.is_prefix_of(m.toks)) by {
        assert(m.toks =~= m.toks.subrange(0, m.toks.len() as int));
    }
}

/// Once failed, the run stays failed with the same failure.
pub proof fn lemma_err_stays(input: Seq<char>, p: int, q: int)
    requires
        0 <= p <= q,
        state_at(input, p) is Err,
    ensures
        state_at(input, q) == state_at(input, p),
    decreases q - p,
{
    if q > p {
        lemma_err_stays(input, p, q - 1);
    }
}

/// The tokens already emitted at any point of the run are a prefix of
/// the tokens of the whole run.
pub proof fn lemma_state_toks_prefix(input: Seq<char>, pos: int)
    requires
        0 <= pos <= input.len() + 1,
        input.len() > 0,
        state_at(input, pos) is Ok,
    ensures
        (state_at(input, pos)->Ok_0).toks.is_prefix_of(lex_spec(input).toks),
    decreases input.len() + 1 - pos,
{
    let m = state_at(input, pos)->Ok_0;
    if pos == input.len() + 1 {
        assert(m.toks.is_prefix_of(m.toks)) by {
            assert(m.toks =~= m.toks.subrange(0, m.toks.len() as int));
        }
    } else {
        lemma_step_toks(input, pos, m);
        match step(input, pos, m) {
            Ok(m2) => {
                lemma_state_toks_prefix(input, pos + 1);
                let whole = lex_spec(input).toks;
                assert(m2.toks.is_prefix_of(whole));
                assert(m.toks.is_prefix_of(m2.toks));
                assert(m.toks =~= whole.subrange(0, m.toks.len() as int)) by {
                    assert(m.toks =~= m2.toks.subrange(0, m.toks.len() as int));
                    assert(m2.toks =~= whole.subrange(0, m2.toks.len() as int));
                }
            },
            Err(e) => {
                lemma_err_stays(input, pos + 1, input.len() as int + 1);
                assert(lex_spec(input).toks == e.toks);
                assert(m.toks =~= e.toks.subrange(0, m.toks.len() as int));
            },
        }
    }
}

} // verus!
