//! The executable tokenizer: a position-tracked character source, the
//! lexer state machine, and the lazy token iteration layer.
//!
//! Everything produced here is pinned to the model of `syntax::model`:
//! the iterator yields exactly the tokens of `lex_spec` of its input, in
//! order, and then the failure of the run, if there is one.

use vstd::prelude::*;
use crate::syntax::model::{
    base_step,
    char_at,
    init_model,
    inv_model,
    lemma_err_stays,
    lemma_loc_of_bounds,
    lemma_state_toks_prefix,
    lemma_step_toks,
    lex_spec,
    loc_of,
    lookahead_at,
    state_at,
    step,
    ErrInfo,
    LexErrorKind,
    LexModel,
    LexerState,
    LineCol,
    SpecTok,
};
use crate::syntax::tokens::{
    chars_to_string,
    is_digit_char,
    operator_from_chars,
    operator_of,
    Operator,
    separator_from_chars,
    separator_of,
    str_to_chars,
    token_from_chars,
    token_of,
    Separator,
    Token,
    TokenModel,
    Whitespace,
};

verus! {

/// A point in the source text. The row advances on newlines; the column
/// counts characters within the row and resets to zero on a newline.
#[derive(Debug, PartialEq, Eq, Structural, Clone, Copy)]
pub struct CharacterLocation {
    pub row: usize,
    pub col: usize,
}

impl View for CharacterLocation {
    type V = LineCol;

    open spec fn view(&self) -> LineCol {
        LineCol { row: self.row as nat, col: self.col as nat }
    }
}

impl Default for CharacterLocation {
    /// The origin of the text: row zero, column zero.
    fn default() -> (r: CharacterLocation)
        ensures
            r == (CharacterLocation { row: 0, col: 0 }),
    {
        CharacterLocation { row: 0, col: 0 }
    }
}

/// One unit of input: the current character, the immediately following
/// character if any, and the location the current character occupies.
#[derive(Debug, PartialEq, Clone, Copy)]
pub struct CharacterItem {
    pub character: char,
    pub next_character: Option<char>,
    pub location: CharacterLocation,
}

/// Does `item` present offset `pos` of `input` faithfully?
pub open spec fn item_matches(input: Seq<char>, pos: int, item: CharacterItem) -> bool {
    &&& item.character == char_at(input, pos)
    &&& item.next_character == lookahead_at(input, pos)
    &&& item.location@ == loc_of(input, pos)
}

/// How many items the source of `input` yields: one per character plus
/// one sentinel, and none at all for empty input.
pub open spec fn items_total(input: Seq<char>) -> int {
    if input.len() == 0 {
        0
    } else {
        input.len() as int + 1
    }
}

/// The position-tracked character source. It yields one item per input
/// character, then exactly one sentinel item, and is not restartable.
pub struct CharacterIter {
    chars: Vec<char>,
    pos: usize,
    location: CharacterLocation,
    done: bool,
    idx: Ghost<int>,
}

impl CharacterIter {
    /// The text this source walks.
    pub closed spec fn input(&self) -> Seq<char> {
        self.chars@
    }

    /// How many items have been yielded so far.
    pub closed spec fn consumed(&self) -> int {
        self.idx@
    }

    pub closed spec fn wf(&self) -> bool {
        let n = self.chars@.len() as int;
        &&& if self.done {
            self.idx@ == items_total(self.chars@)
        } else {
            &&& n > 0
            &&& 0 <= self.idx@ <= n
            &&& self.pos == self.idx@
            &&& self.location@ == loc_of(self.chars@, self.idx@)
        }
    }

    /// A fresh source over `input`, positioned before its first
    /// character.
    pub fn new(input: &str) -> (it: CharacterIter)
        ensures
            it.wf(),
            it.input() == input@,
            it.consumed() == 0,
            input@.len() <= usize::MAX,
    {
        let chars = str_to_chars(input);
        let done = chars.len() == 0;
        CharacterIter {
            chars,
            pos: 0,
            location: CharacterLocation { row: 0, col: 0 },
            done,
            idx: Ghost(0),
        }
    }

    /// Yields the next item: each character of the input in order, then
    /// the sentinel, then nothing.
    pub fn next(&mut self) -> (r: Option<CharacterItem>)
        requires
            old(self).wf(),
        ensures
            final(self).wf(),
            final(self).input() == old(self).input(),
            old(self).consumed() < items_total(old(self).input()) ==> {
                &&& r matches Some(item) && item_matches(
                    old(self).input(),
                    old(self).consumed(),
                    item,
                )
                &&& final(self).consumed() == old(self).consumed() + 1
            },
            old(self).consumed() >= items_total(old(self).input()) ==> {
                &&& r is None
                &&& final(self).consumed() == old(self).consumed()
            },
    {
        if self.done {
            return None;
        }
        if self.pos < self.chars.len() {
            proof {
                lemma_loc_of_bounds(self.chars@, self.idx@);
            }
            let c = self.chars[self.pos];
            let next_c = if self.pos + 1 < self.chars.len() {
                Some(self.chars[self.pos + 1])
            } else {
                None
            };
            let current = self.location;
            if c == '\n' {
                self.location = CharacterLocation { row: self.location.row + 1, col: 0 };
            } else {
                self.location = CharacterLocation {
                    row: self.location.row,
                    col: self.location.col + 1,
                };
            }
            self.pos = self.pos + 1;
            self.idx = Ghost(self.idx@ + 1);
            Some(CharacterItem { character: c, next_character: next_c, location: current })
        } else {
            self.done = true;
            self.idx = Ghost(self.idx@ + 1);
            Some(
                CharacterItem {
                    character: '\0',
                    next_character: None,
                    location: self.location,
                },
            )
        }
    }
}

/// A positioned token: the classified unit and the source span it
/// covers, the end exclusive.
#[derive(Debug, PartialEq)]
pub struct TokenItem {
    pub token: Token,
    pub start: CharacterLocation,
    pub end: CharacterLocation,
}

/// A failed tokenization run, with the location it is reported at: the
/// opening quote of an unterminated string, or the start of a malformed
/// numeric literal.
#[derive(Debug, PartialEq, Eq, Structural, Clone, Copy)]
pub enum TokenizerError {
    UnterminatedString(CharacterLocation),
    InvalidNumber(CharacterLocation),
}

/// Does the produced item render the model token `st`, with its offsets
/// turned into row/column positions?
pub open spec fn tok_matches(input: Seq<char>, item: TokenItem, st: SpecTok) -> bool {
    &&& item.token@ == st.tok
    &&& item.start@ == loc_of(input, st.start as int)
    &&& item.end@ == loc_of(input, st.end as int)
}

/// Does the produced error render the model failure `info`?
pub open spec fn err_matches(input: Seq<char>, e: TokenizerError, info: ErrInfo) -> bool {
    match e {
        TokenizerError::UnterminatedString(loc) => info.kind == LexErrorKind::UnterminatedString
            && loc@ == loc_of(input, info.at as int),
        TokenizerError::InvalidNumber(loc) => info.kind == LexErrorKind::InvalidNumber && loc@
            == loc_of(input, info.at as int),
    }
}

/// The accumulation buffer the model prescribes at `pos`: the input from
/// the pending token's start, skipping the opening quote of a string;
/// comments retain nothing.
pub open spec fn buffer_model(input: Seq<char>, m: LexModel, pos: int) -> Seq<char> {
    let lo = if (m.state matches LexerState::StringLit) {
        m.start as int + 1
    } else {
        m.start as int
    };
    if (m.state matches LexerState::Comment) || (m.state matches LexerState::Invalid) || !(0 <= lo
        <= pos <= input.len()) {
        Seq::empty()
    } else {
        input.subrange(lo, pos)
    }
}

/// Whether the machine's recorded start location is meaningful: always,
/// except in base mode with an empty buffer, where no token is pending.
pub open spec fn start_loc_tracked(m: LexModel, pos: int) -> bool {
    !(m.state matches LexerState::Base && m.start == pos)
}

/// Appending one matching pair keeps the produced tokens aligned with
/// the model tokens.
proof fn lemma_tok_push(
    input: Seq<char>,
    v: Seq<TokenItem>,
    s: Seq<SpecTok>,
    d: int,
    ti: TokenItem,
    st: SpecTok,
)
    requires
        0 <= d <= s.len(),
        v.len() == s.len() - d,
        forall|i: int| 0 <= i < v.len() ==> tok_matches(input, #[trigger] v[i], s[d + i]),
        tok_matches(input, ti, st),
    ensures
        v.push(ti).len() == s.push(st).len() - d,
        forall|i: int|
            0 <= i < v.push(ti).len() ==> tok_matches(
                input,
                #[trigger] v.push(ti)[i],
                s.push(st)[d + i],
            ),
{
    assert forall|i: int| 0 <= i < v.push(ti).len() implies tok_matches(
        input,
        #[trigger] v.push(ti)[i],
        s.push(st)[d + i],
    ) by {
        if i < v.len() {
            assert(v.push(ti)[i] == v[i]);
            assert(s.push(st)[d + i] == s[d + i]);
        } else {
            assert(v.push(ti)[i] == ti);
            assert(s.push(st)[d + i] == st);
        }
    }
}

/// The location of the character following the one `item` presents.
fn next_location(
    item: CharacterItem,
    Ghost(input): Ghost<Seq<char>>,
    Ghost(pos): Ghost<int>,
) -> (r: CharacterLocation)
    requires
        item_matches(input, pos, item),
        0 <= pos < input.len(),
        input.len() <= usize::MAX,
    ensures
        r@ == loc_of(input, pos + 1),
{
    proof {
        lemma_loc_of_bounds(input, pos);
    }
    if item.character == '\n' {
        CharacterLocation { row: item.location.row + 1, col: 0 }
    } else {
        CharacterLocation { row: item.location.row, col: item.location.col + 1 }
    }
}

/// The separator the base mode sees at `pos`, classifying the single
/// current character.
pub open spec fn sep_at(input: Seq<char>, pos: int) -> Separator {
    separator_of(seq![char_at(input, pos)])
}

/// The lexer state machine: the current mode, the accumulation buffer,
/// where the pending token started, and the tokens completed but not yet
/// handed to the iteration layer.
pub(crate) struct Tokenizer {
    state: LexerState,
    char_buffer: Vec<char>,
    token_start: CharacterLocation,
    tokens: Vec<TokenItem>,
    input: Ghost<Seq<char>>,
    pos: Ghost<int>,
    drained: Ghost<int>,
}

impl Tokenizer {
    /// Does this machine render the model state `m` at offset `pos`?
    spec fn matches_model(&self, m: LexModel, pos: int) -> bool {
        let input = self.input@;
        &&& inv_model(pos, m)
        &&& self.state == m.state
        &&& self.char_buffer@ == buffer_model(input, m, pos)
        &&& (start_loc_tracked(m, pos) ==> self.token_start@ == loc_of(input, m.start as int))
        &&& 0 <= self.drained@ <= m.toks.len()
        &&& self.tokens@.len() == m.toks.len() - self.drained@
        &&& forall|i: int|
            0 <= i < self.tokens@.len() ==> tok_matches(
                input,
                #[trigger] self.tokens@[i],
                m.toks[self.drained@ + i],
            )
    }

    /// The machine renders the model of its input at its position.
    pub(crate) closed spec fn wf(&self) -> bool {
        &&& self.input@.len() <= usize::MAX
        &&& 0 <= self.pos@ <= self.input@.len() + 1
        &&& state_at(self.input@, self.pos@) is Ok
        &&& self.matches_model(state_at(self.input@, self.pos@)->Ok_0, self.pos@)
    }

    /// A fresh machine in base mode.
    fn new(Ghost(input): Ghost<Seq<char>>) -> (t: Tokenizer)
        requires
            input.len() <= usize::MAX,
        ensures
            t.wf(),
            t.input@ == input,
            t.pos@ == 0,
            t.drained@ == 0,
            t.tokens@.len() == 0,
    {
        let t = Tokenizer {
            state: LexerState::Base,
            char_buffer: Vec::new(),
            token_start: CharacterLocation { row: 0, col: 0 },
            tokens: Vec::new(),
            input: Ghost(input),
            pos: Ghost(0),
            drained: Ghost(0),
        };
        proof {
            assert(t.char_buffer@ =~= buffer_model(input, init_model(), 0));
        }
        t
    }

    /// Closes the pending buffer: if it is non-empty, classifies it and
    /// appends the completed token, the current location closing its
    /// span. Resetting the buffer is left to the caller.
    fn flush_pending(&mut self, item: CharacterItem, Ghost(m): Ghost<LexModel>)
        requires
            old(self).matches_model(m, old(self).pos@),
            m.state == LexerState::Base,
            0 <= old(self).pos@ <= old(self).input@.len(),
            item_matches(old(self).input@, old(self).pos@, item),
        ensures
            final(self).tokens@.len() == crate::syntax::model::flush(
                old(self).input@,
                old(self).pos@,
                m,
            ).len() - old(self).drained@,
            forall|i: int|
                0 <= i < final(self).tokens@.len() ==> tok_matches(
                    old(self).input@,
                    #[trigger] final(self).tokens@[i],
                    crate::syntax::model::flush(old(self).input@, old(self).pos@, m)[old(
                        self,
                    ).drained@ + i],
                ),
            final(self).state == old(self).state,
            final(self).char_buffer == old(self).char_buffer,
            final(self).token_start == old(self).token_start,
            final(self).input == old(self).input,
            final(self).pos == old(self).pos,
            final(self).drained == old(self).drained,
    {
        let ghost input = self.input@;
        let ghost pos = self.pos@;
        if self.char_buffer.len() > 0 {
            let t = token_from_chars(&self.char_buffer);
            let ti = TokenItem { token: t, start: self.token_start, end: item.location };
            let ghost st = SpecTok {
                tok: token_of(input.subrange(m.start as int, pos)),
                start: m.start,
                end: pos as nat,
            };
            proof {
                assert(m.start < pos);
                lemma_tok_push(input, self.tokens@, m.toks, self.drained@, ti, st);
            }
            self.tokens.push(ti);
        }
    }

    /// The base-mode transition for the character `item` presents. The
    /// caller has put the machine into base mode and accounts for the
    /// position advance itself: this is also the re-dispatch target when
    /// operator or number mode hands the same character back.
    fn base_transition(&mut self, item: CharacterItem, Ghost(m): Ghost<LexModel>)
        requires
            old(self).matches_model(m, old(self).pos@),
            m.state == LexerState::Base,
            old(self).input@.len() <= usize::MAX,
            0 <= old(self).pos@ <= old(self).input@.len(),
            item_matches(old(self).input@, old(self).pos@, item),
        ensures
            final(self).matches_model(
                base_step(old(self).input@, old(self).pos@, m),
                old(self).pos@ + 1,
            ),
            final(self).input == old(self).input,
            final(self).pos == old(self).pos,
            final(self).drained == old(self).drained,
    {
        let ghost input = self.input@;
        let ghost pos = self.pos@;
        let ghost m2 = base_step(input, pos, m);
        let is_comment_start = item.character == '-' && (match item.next_character {
            Some(nc) => nc == '-',
            None => false,
        });
        if item.character == '\0' {
            self.flush_pending(item, Ghost(m));
            self.char_buffer = Vec::new();
            proof {
                assert(self.char_buffer@ =~= buffer_model(input, m2, pos + 1));
            }
        } else if item.character == '"' {
            self.flush_pending(item, Ghost(m));
            self.state = LexerState::StringLit;
            self.char_buffer = Vec::new();
            self.token_start = item.location;
            proof {
                assert(self.char_buffer@ =~= buffer_model(input, m2, pos + 1));
            }
        } else if is_comment_start {
            self.flush_pending(item, Ghost(m));
            self.state = LexerState::Comment;
            self.char_buffer = Vec::new();
            self.token_start = item.location;
            proof {
                assert(self.char_buffer@ =~= buffer_model(input, m2, pos + 1));
            }
        } else if (is_digit_char(item.character) || item.character == '.')
            && self.char_buffer.len() == 0 {
            self.state = LexerState::Number { parsing_decimals: item.character == '.' };
            self.char_buffer.push(item.character);
            self.token_start = item.location;
            proof {
                assert(pos < input.len());
                assert(self.char_buffer@ =~= buffer_model(input, m2, pos + 1));
            }
        } else {
            let mut sv: Vec<char> = Vec::new();
            sv.push(item.character);
            proof {
                assert(sv@ =~= seq![char_at(input, pos)]);
            }
            let sep = separator_from_chars(&sv);
            match sep {
                Separator::Invalid => {
                    if self.char_buffer.len() == 0 {
                        self.token_start = item.location;
                    }
                    self.char_buffer.push(item.character);
                    proof {
                        assert(pos < input.len());
                        assert(self.char_buffer@ =~= buffer_model(input, m2, pos + 1));
                    }
                },
                Separator::Operator(_) => {
                    self.flush_pending(item, Ghost(m));
                    self.state = LexerState::Operator;
                    self.char_buffer = Vec::new();
                    self.char_buffer.push(item.character);
                    self.token_start = item.location;
                    proof {
                        assert(pos < input.len());
                        assert(self.char_buffer@ =~= buffer_model(input, m2, pos + 1));
                    }
                },
                _ => {
                    self.flush_pending(item, Ghost(m));
                    proof {
                        assert(pos < input.len());
                    }
                    let end_loc = next_location(item, Ghost(input), Ghost(pos));
                    let ti = TokenItem {
                        token: Token::Separator(sep),
                        start: item.location,
                        end: end_loc,
                    };
                    let ghost flushed = crate::syntax::model::flush(input, pos, m);
                    let ghost st = SpecTok {
                        tok: TokenModel::Separator(sep_at(input, pos)),
                        start: pos as nat,
                        end: (pos + 1) as nat,
                    };
                    proof {
                        lemma_tok_push(input, self.tokens@, flushed, self.drained@, ti, st);
                        assert(m2.toks == flushed.push(st));
                    }
                    self.tokens.push(ti);
                    self.char_buffer = Vec::new();
                    proof {
                        assert(self.char_buffer@ =~= buffer_model(input, m2, pos + 1));
                    }
                },
            }
        }
    }

    /// Feeds one character into the machine: it accumulates, completes
    /// zero, one or two tokens, changes mode, or fails with the error the
    /// model prescribes.
    fn process_character(&mut self, item: CharacterItem) -> (r: Result<(), TokenizerError>)
        requires
            old(self).wf(),
            old(self).pos@ <= old(self).input@.len(),
            item_matches(old(self).input@, old(self).pos@, item),
        ensures
            final(self).input == old(self).input,
            r is Ok <==> state_at(old(self).input@, old(self).pos@ + 1) is Ok,
            r is Ok ==> {
                &&& final(self).wf()
                &&& final(self).drained == old(self).drained
                &&& final(self).pos@ == old(self).pos@ + 1
            },
            r is Err ==> err_matches(
                old(self).input@,
                r->Err_0,
                state_at(old(self).input@, old(self).pos@ + 1)->Err_0,
            ),
    {
        let ghost input = self.input@;
        let ghost pos0 = self.pos@;
        let ghost m = state_at(input, pos0)->Ok_0;
        match self.state {
            LexerState::Base => {
                self.base_transition(item, Ghost(m));
                self.pos = Ghost(pos0 + 1);
                proof {
                    assert(state_at(input, pos0 + 1) == step(input, pos0, m));
                }
                Ok(())
            },
            LexerState::StringLit => {
                if item.character == '\0' || item.character == '\n' {
                    proof {
                        assert(state_at(input, pos0 + 1) == step(input, pos0, m));
                    }
                    Err(TokenizerError::UnterminatedString(self.token_start))
                } else if item.character == '"' {
                    proof {
                        assert(pos0 < input.len());
                    }
                    let s = chars_to_string(&self.char_buffer);
                    let end_loc = next_location(item, Ghost(input), Ghost(pos0));
                    let ti = TokenItem {
                        token: Token::String(s),
                        start: self.token_start,
                        end: end_loc,
                    };
                    let ghost st = SpecTok {
                        tok: TokenModel::StrLit(input.subrange(m.start as int + 1, pos0)),
                        start: m.start,
                        end: (pos0 + 1) as nat,
                    };
                    proof {
                        lemma_tok_push(input, self.tokens@, m.toks, self.drained@, ti, st);
                    }
                    self.tokens.push(ti);
                    self.state = LexerState::Base;
                    self.char_buffer = Vec::new();
                    self.pos = Ghost(pos0 + 1);
                    proof {
                        assert(state_at(input, pos0 + 1) == step(input, pos0, m));
                        let m2 = state_at(input, pos0 + 1)->Ok_0;
                        assert(self.char_buffer@ =~= buffer_model(input, m2, pos0 + 1));
                    }
                    Ok(())
                } else {
                    self.char_buffer.push(item.character);
                    self.pos = Ghost(pos0 + 1);
                    proof {
                        assert(pos0 < input.len());
                        assert(state_at(input, pos0 + 1) == step(input, pos0, m));
                        let m2 = state_at(input, pos0 + 1)->Ok_0;
                        assert(self.char_buffer@ =~= buffer_model(input, m2, pos0 + 1));
                    }
                    Ok(())
                }
            },
            LexerState::Comment => {
                if item.character == '\n' {
                    proof {
                        assert(pos0 < input.len());
                    }
                    let end_loc = next_location(item, Ghost(input), Ghost(pos0));
                    let ti = TokenItem {
                        token: Token::Separator(Separator::Whitespace(Whitespace::Newline)),
                        start: item.location,
                        end: end_loc,
                    };
                    let ghost st = SpecTok {
                        tok: TokenModel::Separator(Separator::Whitespace(Whitespace::Newline)),
                        start: pos0 as nat,
                        end: (pos0 + 1) as nat,
                    };
                    proof {
                        lemma_tok_push(input, self.tokens@, m.toks, self.drained@, ti, st);
                    }
                    self.tokens.push(ti);
                    self.state = LexerState::Base;
                    self.pos = Ghost(pos0 + 1);
                    proof {
                        assert(state_at(input, pos0 + 1) == step(input, pos0, m));
                        let m2 = state_at(input, pos0 + 1)->Ok_0;
                        assert(self.char_buffer@ =~= buffer_model(input, m2, pos0 + 1));
                    }
                    Ok(())
                } else {
                    self.pos = Ghost(pos0 + 1);
                    proof {
                        assert(state_at(input, pos0 + 1) == step(input, pos0, m));
                        let m2 = state_at(input, pos0 + 1)->Ok_0;
                        assert(self.char_buffer@ =~= buffer_model(input, m2, pos0 + 1));
                    }
                    Ok(())
                }
            },
            LexerState::Operator => {
                let first = self.char_buffer[0];
                let mut two: Vec<char> = Vec::new();
                two.push(first);
                two.push(item.character);
                proof {
                    assert(input.subrange(m.start as int, pos0).len() == 1);
                    assert(first == input.subrange(m.start as int, pos0)[0]);
                    assert(two@ =~= input.subrange(m.start as int, pos0).push(
                        char_at(input, pos0),
                    ));
                }
                let op2 = operator_from_chars(&two);
                if !matches!(op2, Operator::Invalid) {
                    proof {
                        assert(char_at(input, pos0) == two@[1]);
                        assert(char_at(input, pos0) != '\0');
                        assert(pos0 < input.len());
                    }
                    let end_loc = next_location(item, Ghost(input), Ghost(pos0));
                    let ti = TokenItem {
                        token: Token::Separator(Separator::Operator(op2)),
                        start: self.token_start,
                        end: end_loc,
                    };
                    let ghost st = SpecTok {
                        tok: TokenModel::Separator(
                            Separator::Operator(
                                operator_of(
                                    input.subrange(m.start as int, pos0).push(char_at(input, pos0)),
                                ),
                            ),
                        ),
                        start: m.start,
                        end: (pos0 + 1) as nat,
                    };
                    proof {
                        lemma_tok_push(input, self.tokens@, m.toks, self.drained@, ti, st);
                    }
                    self.tokens.push(ti);
                    self.state = LexerState::Base;
                    self.char_buffer = Vec::new();
                    self.pos = Ghost(pos0 + 1);
                    proof {
                        assert(state_at(input, pos0 + 1) == step(input, pos0, m));
                        let m2 = state_at(input, pos0 + 1)->Ok_0;
                        assert(self.char_buffer@ =~= buffer_model(input, m2, pos0 + 1));
                    }
                    Ok(())
                } else {
                    let single = operator_from_chars(&self.char_buffer);
                    let ti = TokenItem {
                        token: Token::Separator(Separator::Operator(single)),
                        start: self.token_start,
                        end: item.location,
                    };
                    let ghost st = SpecTok {
                        tok: TokenModel::Separator(
                            Separator::Operator(operator_of(input.subrange(m.start as int, pos0))),
                        ),
                        start: m.start,
                        end: pos0 as nat,
                    };
                    let ghost m2 = LexModel {
                        state: LexerState::Base,
                        start: pos0 as nat,
                        toks: m.toks.push(st),
                    };
                    proof {
                        lemma_tok_push(input, self.tokens@, m.toks, self.drained@, ti, st);
                    }
                    self.tokens.push(ti);
                    self.state = LexerState::Base;
                    self.char_buffer = Vec::new();
                    proof {
                        assert(self.char_buffer@ =~= buffer_model(input, m2, pos0));
                        assert(self.matches_model(m2, pos0));
                    }
                    self.base_transition(item, Ghost(m2));
                    self.pos = Ghost(pos0 + 1);
                    proof {
                        assert(state_at(input, pos0 + 1) == step(input, pos0, m));
                        assert(step(input, pos0, m)->Ok_0 == base_step(input, pos0, m2));
                    }
                    Ok(())
                }
            },
            LexerState::Number { parsing_decimals } => {
                if item.character == '.' {
                    if parsing_decimals {
                        proof {
                            assert(state_at(input, pos0 + 1) == step(input, pos0, m));
                        }
                        Err(TokenizerError::InvalidNumber(self.token_start))
                    } else {
                        self.char_buffer.push('.');
                        self.state = LexerState::Number { parsing_decimals: true };
                        self.pos = Ghost(pos0 + 1);
                        proof {
                            assert(pos0 < input.len());
                            assert(state_at(input, pos0 + 1) == step(input, pos0, m));
                            let m2 = state_at(input, pos0 + 1)->Ok_0;
                            assert(self.char_buffer@ =~= buffer_model(input, m2, pos0 + 1));
                        }
                        Ok(())
                    }
                } else if is_digit_char(item.character) {
                    self.char_buffer.push(item.character);
                    self.pos = Ghost(pos0 + 1);
                    proof {
                        assert(pos0 < input.len());
                        assert(state_at(input, pos0 + 1) == step(input, pos0, m));
                        let m2 = state_at(input, pos0 + 1)->Ok_0;
                        assert(self.char_buffer@ =~= buffer_model(input, m2, pos0 + 1));
                    }
                    Ok(())
                } else {
                    let s = chars_to_string(&self.char_buffer);
                    let ti = TokenItem {
                        token: Token::Number(s),
                        start: self.token_start,
                        end: item.location,
                    };
                    let ghost st = SpecTok {
                        tok: TokenModel::Number(input.subrange(m.start as int, pos0)),
                        start: m.start,
                        end: pos0 as nat,
                    };
                    let ghost m2 = LexModel {
                        state: LexerState::Base,
                        start: pos0 as nat,
                        toks: m.toks.push(st),
                    };
                    proof {
                        lemma_tok_push(input, self.tokens@, m.toks, self.drained@, ti, st);
                    }
                    self.tokens.push(ti);
                    self.state = LexerState::Base;
                    self.char_buffer = Vec::new();
                    proof {
                        assert(self.char_buffer@ =~= buffer_model(input, m2, pos0));
                        assert(self.matches_model(m2, pos0));
                    }
                    self.base_transition(item, Ghost(m2));
                    self.pos = Ghost(pos0 + 1);
                    proof {
                        assert(state_at(input, pos0 + 1) == step(input, pos0, m));
                        assert(step(input, pos0, m)->Ok_0 == base_step(input, pos0, m2));
                    }
                    Ok(())
                }
            },
            LexerState::Invalid => {
                proof {
                    assert(state_at(input, pos0 + 1) == step(input, pos0, m));
                }
                Err(TokenizerError::InvalidNumber(item.location))
            },
        }
    }

    /// Hands over every token completed so far, in order, leaving the
    /// machine's own queue empty.
    fn collect_tokens(&mut self) -> (r: Vec<TokenItem>)
        requires
            old(self).wf(),
        ensures
            final(self).wf(),
            final(self).input == old(self).input,
            final(self).pos == old(self).pos,
            final(self).tokens@.len() == 0,
            final(self).drained@ == old(self).drained@ + r@.len(),
            final(self).drained@ == (state_at(old(self).input@, old(self).pos@)->Ok_0).toks.len(),
            r@.len() == (state_at(old(self).input@, old(self).pos@)->Ok_0).toks.len() - old(
                self,
            ).drained@,
            forall|i: int|
                0 <= i < r@.len() ==> tok_matches(
                    old(self).input@,
                    #[trigger] r@[i],
                    (state_at(old(self).input@, old(self).pos@)->Ok_0).toks[old(self).drained@ + i],
                ),
    {
        let mut out: Vec<TokenItem> = Vec::new();
        core::mem::swap(&mut out, &mut self.tokens);
        self.drained = Ghost(self.drained@ + out.len() as int);
        out
    }
}

/// How many results a run over `input` produces: its tokens, plus one
/// for the error if the run fails.
pub open spec fn results_total(input: Seq<char>) -> int {
    lex_spec(input).toks.len() + if lex_spec(input).err is Some {
        1int
    } else {
        0int
    }
}

/// The lazy token iteration layer: drives the state machine over the
/// character source, hands tokens out one at a time, and keeps the
/// second token back when one character completes two.
pub struct TokenIterator {
    char_iter: CharacterIter,
    state_machine: Tokenizer,
    buffered_token: Option<TokenItem>,
    finished: bool,
    delivered: Ghost<int>,
}

impl TokenIterator {
    /// The text being tokenized.
    pub closed spec fn input(&self) -> Seq<char> {
        self.char_iter.input()
    }

    /// How many results have been handed out so far.
    pub closed spec fn delivered_count(&self) -> int {
        self.delivered@
    }

    pub closed spec fn wf(&self) -> bool {
        let input = self.char_iter.input();
        let out = lex_spec(input);
        &&& self.char_iter.wf()
        &&& self.state_machine.input@ == input
        &&& 0 <= self.delivered@
        &&& if self.finished {
            &&& self.delivered@ == results_total(input)
            &&& self.buffered_token is None
        } else {
            &&& self.state_machine.wf()
            &&& self.state_machine.pos@ == self.char_iter.consumed()
            &&& self.state_machine.tokens@.len() == 0
            &&& self.state_machine.drained@ == (state_at(
                input,
                self.state_machine.pos@,
            )->Ok_0).toks.len()
            &&& self.state_machine.drained@ == self.delivered@ + (
            if self.buffered_token is Some {
                1int
            } else {
                0int
            })
            &&& (self.buffered_token matches Some(t) ==> self.delivered@ < out.toks.len()
                && tok_matches(input, t, out.toks[self.delivered@]))
        }
    }

    /// A fresh iterator over `input`, with nothing delivered yet.
    pub fn new(input: &str) -> (it: TokenIterator)
        ensures
            it.wf(),
            it.input() == input@,
            it.delivered_count() == 0,
    {
        let char_iter = CharacterIter::new(input);
        let state_machine = Tokenizer::new(Ghost(input@));
        TokenIterator {
            char_iter,
            state_machine,
            buffered_token: None,
            finished: false,
            delivered: Ghost(0),
        }
    }

    /// The next result of the run: each token of `lex_spec` of the input
    /// in order, then the failure if the run has one, then nothing.
    #[verifier::loop_isolation(false)]
    pub fn next(&mut self) -> (r: Option<Result<TokenItem, TokenizerError>>)
        requires
            old(self).wf(),
        ensures
            final(self).wf(),
            final(self).input() == old(self).input(),
            ({
                let out = lex_spec(old(self).input());
                let k = old(self).delivered_count();
                &&& (k < out.toks.len() ==> (r matches Some(Ok(t)) && tok_matches(
                    old(self).input(),
                    t,
                    out.toks[k],
                ) && final(self).delivered_count() == k + 1))
                &&& ((k == out.toks.len() && out.err is Some) ==> (r matches Some(Err(e))
                    && err_matches(old(self).input(), e, out.err->0)
                    && final(self).delivered_count() == k + 1))
                &&& (k >= results_total(old(self).input()) ==> (r is None
                    && final(self).delivered_count() == k))
            }),
    {
        let ghost input = self.char_iter.input();
        let ghost out = lex_spec(input);
        let ghost k0 = self.delivered@;
        if self.finished {
            return None;
        }
        let buffered = self.buffered_token.take();
        match buffered {
            Some(t) => {
                self.delivered = Ghost(self.delivered@ + 1);
                return Some(Ok(t));
            },
            None => {},
        }
        loop
            invariant
                !self.finished,
                self.buffered_token is None,
                self.char_iter.wf(),
                self.char_iter.input() == input,
                self.state_machine.input@ == input,
                self.state_machine.wf(),
                self.state_machine.pos@ == self.char_iter.consumed(),
                self.state_machine.tokens@.len() == 0,
                self.state_machine.drained@ == (state_at(
                    input,
                    self.state_machine.pos@,
                )->Ok_0).toks.len(),
                self.delivered@ == k0,
                self.state_machine.drained@ == k0,
            decreases items_total(input) - self.char_iter.consumed(),
        {
            let ghost pos = self.state_machine.pos@;
            let ghost m = state_at(input, pos)->Ok_0;
            match self.char_iter.next() {
                None => {
                    self.finished = true;
                    proof {
                        if input.len() > 0 {
                            assert(pos == input.len() + 1);
                        }
                    }
                    return None;
                },
                Some(item) => {
                    match self.state_machine.process_character(item) {
                        Err(e) => {
                            self.finished = true;
                            self.delivered = Ghost(self.delivered@ + 1);
                            proof {
                                let info = state_at(input, pos + 1)->Err_0;
                                lemma_step_toks(input, pos, m);
                                assert(info.toks == m.toks);
                                lemma_err_stays(input, pos + 1, input.len() as int + 1);
                                assert(lex_spec(input).err == Some(info));
                                assert(out.toks == info.toks);
                            }
                            return Some(Err(e));
                        },
                        Ok(()) => {
                            let mut toks = self.state_machine.collect_tokens();
                            let ghost m2 = state_at(input, pos + 1)->Ok_0;
                            proof {
                                lemma_step_toks(input, pos, m);
                                lemma_state_toks_prefix(input, pos + 1);
                                assert(toks@.len() <= 2);
                                assert forall|i: int|
                                    0 <= i < m2.toks.len() implies m2.toks[i] == out.toks[i] by {
                                    assert(m2.toks =~= out.toks.subrange(
                                        0,
                                        m2.toks.len() as int,
                                    ));
                                }
                            }
                            if toks.len() > 0 {
                                let first = toks.remove(0);
                                if toks.len() > 0 {
                                    let second = toks.remove(0);
                                    self.buffered_token = Some(second);
                                }
                                self.delivered = Ghost(self.delivered@ + 1);
                                return Some(Ok(first));
                            }
                        },
                    }
                },
            }
        }
    }
}

/// Tokenizes a statement: the returned iterator yields exactly the
/// tokens of `lex_spec` of the text, in order, then its failure if the
/// run has one, and then nothing.
pub fn tokenize(sql: &str) -> (it: TokenIterator)
    ensures
        it.wf(),
        it.input() == sql@,
        it.delivered_count() == 0,
{
    TokenIterator::new(sql)
}

} // verus!
