//! Laws of the tokenizer, proved against the model: positions grow
//! monotonically through the output, and the token spans cover the whole
//! input up to discarded comment bodies.

use vstd::prelude::*;
use crate::syntax::model::{
    base_step,
    char_at,
    comment_step,
    inv_model,
    lemma_state_at_inv,
    lex_spec,
    loc_le,
    loc_of,
    op_step,
    state_at,
    step,
    str_step,
    LexModel,
    LexerState,
    SpecTok,
};

verus! {

/// The input contains no NUL character, so the end-of-input sentinel is
/// distinguishable from every input character.
pub open spec fn nul_free(input: Seq<char>) -> bool {
    forall|k: int| 0 <= k < input.len() ==> input[k] != '\0'
}

/// Spans are internally ordered: each token ends no earlier than it
/// starts, consecutive tokens do not overlap, and everything ends by
/// `hi`.
pub open spec fn spans_wf(toks: Seq<SpecTok>, hi: int) -> bool {
    &&& forall|i: int| 0 <= i < toks.len() ==> (#[trigger] toks[i]).start <= toks[i].end
    &&& forall|i: int| 0 <= i < toks.len() - 1 ==> (#[trigger] toks[i]).end <= toks[i + 1].start
    &&& (toks.len() > 0 ==> toks.last().end <= hi)
}

/// The text between `lo` and `hi` is a discarded comment body: it opens
/// with `--` and runs to its end without a newline.
pub open spec fn comment_text(input: Seq<char>, lo: int, hi: int) -> bool {
    &&& 0 <= lo
    &&& lo + 2 <= hi <= input.len()
    &&& input[lo] == '-'
    &&& input[lo + 1] == '-'
    &&& forall|k: int| lo <= k < hi ==> input[k] != '\n'
}

/// The spans of `toks` cover `[0, hi)` completely, except that any gap
/// between them, before the first of them, or after the last of them is
/// a discarded comment body.
pub open spec fn covers(input: Seq<char>, toks: Seq<SpecTok>, hi: int) -> bool {
    &&& (toks.len() == 0 ==> hi == 0 || comment_text(input, 0, hi))
    &&& (toks.len() > 0 ==> {
        &&& (toks[0].start == 0 || comment_text(input, 0, toks[0].start as int))
        &&& (toks.last().end == hi || comment_text(input, toks.last().end as int, hi))
        &&& forall|i: int|
            0 <= i < toks.len() - 1 ==> ((#[trigger] toks[i]).end == toks[i + 1].start
                || comment_text(input, toks[i].end as int, toks[i + 1].start as int))
    })
}

/// The offset up to which the emitted spans account for the input while
/// the machine is in state `m`: the start of the pending token, clamped
/// to the input's end once the sentinel has been consumed.
pub open spec fn frontier(input: Seq<char>, m: LexModel) -> int {
    if m.start as int <= input.len() {
        m.start as int
    } else {
        input.len() as int
    }
}

/// The inductive invariant of a run: spans ordered, spans covering the
/// input up to the frontier, and, in comment mode, the discarded text so
/// far opening with `--` and holding no newline.
pub open spec fn run_inv(input: Seq<char>, pos: int, m: LexModel) -> bool {
    &&& spans_wf(m.toks, m.start as int)
    &&& covers(input, m.toks, frontier(input, m))
    &&& (m.toks.len() > 0 ==> m.toks.last().end == frontier(input, m))
    &&& (m.state matches LexerState::Comment ==> {
        &&& m.start + 1 < input.len()
        &&& input[m.start as int] == '-'
        &&& input[m.start as int + 1] == '-'
        &&& m.start < pos
        &&& forall|k: int| m.start <= k < pos && k < input.len() ==> input[k] != '\n'
    })
}

/// Appending a token that starts at the old bound keeps spans ordered.
proof fn lemma_spans_push(toks: Seq<SpecTok>, hi: int, st: SpecTok)
    requires
        spans_wf(toks, hi),
        hi <= st.start,
        st.start <= st.end,
    ensures
        spans_wf(toks.push(st), st.end as int),
{
    let t2 = toks.push(st);
    assert forall|i: int| 0 <= i < t2.len() implies (#[trigger] t2[i]).start <= t2[i].end by {
        if i < toks.len() {
            assert(t2[i] == toks[i]);
        }
    }
    assert forall|i: int| 0 <= i < t2.len() - 1 implies (#[trigger] t2[i]).end <= t2[i + 1].start by {
        if i < toks.len() - 1 {
            assert(t2[i] == toks[i]);
            assert(t2[i + 1] == toks[i + 1]);
        } else {
            assert(t2[i] == toks[i]);
            assert(t2[i + 1] == st);
            assert(toks[i] == toks.last());
        }
    }
}

/// Appending a token that starts at the covered bound, or after a gap
/// that is a comment body, keeps the input covered.
proof fn lemma_covers_push(input: Seq<char>, toks: Seq<SpecTok>, hi: int, st: SpecTok)
    requires
        covers(input, toks, hi),
        toks.len() > 0 ==> toks.last().end == hi,
        hi == st.start || comment_text(input, hi, st.start as int),
        st.start <= st.end,
    ensures
        covers(input, toks.push(st), st.end as int),
        toks.push(st).last().end == st.end,
{
    let t2 = toks.push(st);
    if toks.len() == 0 {
        assert(t2[0] == st);
    } else {
        assert(t2[0] == toks[0]);
        assert(t2.last() == st);
        assert(t2[t2.len() - 2] == toks.last());
        assert forall|i: int|
            0 <= i < t2.len() - 1 implies ((#[trigger] t2[i]).end == t2[i + 1].start
            || comment_text(input, t2[i].end as int, t2[i + 1].start as int)) by {
            if i < toks.len() - 1 {
                assert(t2[i] == toks[i]);
                assert(t2[i + 1] == toks[i + 1]);
            } else {
                assert(t2[i] == toks.last());
                assert(t2[i + 1] == st);
            }
        }
    }
}

/// A base-mode step preserves the invariant.
#[verifier::rlimit(100)]
proof fn lemma_base_inv(input: Seq<char>, pos: int, m: LexModel)
    requires
        nul_free(input),
        m.state == LexerState::Base,
        inv_model(pos, m),
        run_inv(input, pos, m),
        0 <= pos <= input.len(),
    ensures
        run_inv(input, pos + 1, base_step(input, pos, m)),
        inv_model(pos + 1, base_step(input, pos, m)),
{
    let m2 = base_step(input, pos, m);
    let c = char_at(input, pos);
    let fl = crate::syntax::model::flush(input, pos, m);
    if m.start < pos {
        let st = fl.last();
        lemma_spans_push(m.toks, m.start as int, st);
        lemma_covers_push(input, m.toks, m.start as int, st);
        assert(spans_wf(fl, pos));
        assert(covers(input, fl, pos));
    } else {
        assert(spans_wf(fl, pos));
        assert(covers(input, fl, pos));
    }
    if c == '\0' {
        assert(pos == input.len());
        assert(covers(input, m2.toks, frontier(input, m2)));
        assert(spans_wf(m2.toks, m2.start as int));
    } else if c == '"' {
        assert(spans_wf(m2.toks, m2.start as int));
    } else if c == '-' && crate::syntax::model::lookahead_at(input, pos) == Some('-') {
        assert(input[pos + 1] == '-');
        assert(spans_wf(m2.toks, m2.start as int));
    } else if (crate::syntax::tokens::is_digit(c) || c == '.') && m.start == pos {
        assert(spans_wf(m2.toks, m2.start as int));
        assert(covers(input, m2.toks, frontier(input, m2)));
    } else {
        let sep = crate::syntax::tokens::separator_of(seq![c]);
        if sep == crate::syntax::tokens::Separator::Invalid {
        } else if sep matches crate::syntax::tokens::Separator::Operator(_) {
        } else {
            let st2 = SpecTok {
                tok: crate::syntax::tokens::TokenModel::Separator(sep),
                start: pos as nat,
                end: (pos + 1) as nat,
            };
            lemma_spans_push(fl, pos, st2);
            lemma_covers_push(input, fl, pos, st2);
        }
    }
}

/// Every step preserves the invariant.
proof fn lemma_step_inv3(input: Seq<char>, pos: int, m: LexModel)
    requires
        nul_free(input),
        inv_model(pos, m),
        run_inv(input, pos, m),
        0 <= pos <= input.len(),
    ensures
        step(input, pos, m) matches Ok(m2) ==> run_inv(input, pos + 1, m2),
        step(input, pos, m) matches Err(e) ==> e.toks == m.toks,
{
    let c = char_at(input, pos);
    match m.state {
        LexerState::Base => {
            lemma_base_inv(input, pos, m);
        },
        LexerState::StringLit => {
            if c == '\0' || c == '\n' {
                assert(m.start <= input.len());
            } else if c == '"' {
                let st = SpecTok {
                    tok: crate::syntax::tokens::TokenModel::StrLit(
                        input.subrange(m.start as int + 1, pos),
                    ),
                    start: m.start,
                    end: (pos + 1) as nat,
                };
                lemma_spans_push(m.toks, m.start as int, st);
                lemma_covers_push(input, m.toks, m.start as int, st);
            }
        },
        LexerState::Comment => {
            if c == '\n' {
                assert(pos < input.len());
                let st = SpecTok {
                    tok: crate::syntax::tokens::TokenModel::Separator(
                        crate::syntax::tokens::Separator::Whitespace(
                            crate::syntax::tokens::Whitespace::Newline,
                        ),
                    ),
                    start: pos as nat,
                    end: (pos + 1) as nat,
                };
                assert(input[pos] == '\n');
                assert(m.start + 2 <= pos);
                assert(comment_text(input, m.start as int, pos));
                lemma_spans_push(m.toks, m.start as int, st);
                lemma_covers_push(input, m.toks, m.start as int, st);
            }
        },
        LexerState::Operator => {
            let two = input.subrange(m.start as int, pos).push(c);
            if crate::syntax::tokens::operator_of(two) != crate::syntax::tokens::Operator::Invalid {
                assert(c != '\0');
                assert(pos < input.len());
                let st = (op_step(input, pos, m)).toks.last();
                lemma_spans_push(m.toks, m.start as int, st);
                lemma_covers_push(input, m.toks, m.start as int, st);
            } else {
                let single = crate::syntax::tokens::operator_of(
                    input.subrange(m.start as int, pos),
                );
                let st = SpecTok {
                    tok: crate::syntax::tokens::TokenModel::Separator(
                        crate::syntax::tokens::Separator::Operator(single),
                    ),
                    start: m.start,
                    end: pos as nat,
                };
                lemma_spans_push(m.toks, m.start as int, st);
                lemma_covers_push(input, m.toks, m.start as int, st);
                let mmid = LexModel {
                    state: LexerState::Base,
                    start: pos as nat,
                    toks: m.toks.push(st),
                };
                lemma_base_inv(input, pos, mmid);
            }
        },
        LexerState::Number { parsing_decimals } => {
            if c == '.' && parsing_decimals {
            } else if c == '.' || crate::syntax::tokens::is_digit(c) {
            } else {
                let st = SpecTok {
                    tok: crate::syntax::tokens::TokenModel::Number(
                        input.subrange(m.start as int, pos),
                    ),
                    start: m.start,
                    end: pos as nat,
                };
                lemma_spans_push(m.toks, m.start as int, st);
                lemma_covers_push(input, m.toks, m.start as int, st);
                let mmid = LexModel {
                    state: LexerState::Base,
                    start: pos as nat,
                    toks: m.toks.push(st),
                };
                lemma_base_inv(input, pos, mmid);
            }
        },
        LexerState::Invalid => {
        },
    }
}

/// Idempotent classification: the category of a text depends on the
/// text alone, with no hidden state, so classifying the same text twice
/// yields the same category.
pub proof fn lemma_classification_idempotent(s1: Seq<char>, s2: Seq<char>)
    requires
        s1 == s2,
    ensures
        crate::syntax::tokens::token_of(s1) == crate::syntax::tokens::token_of(s2),
{
}

/// Walking forward through the input never moves the reported position
/// backward.
pub proof fn lemma_loc_of_mono(input: Seq<char>, a: int, b: int)
    requires
        0 <= a <= b,
    ensures
        loc_le(loc_of(input, a), loc_of(input, b)),
    decreases b,
{
    if a < b {
        if b > input.len() {
            if a > input.len() {
            } else {
                lemma_loc_of_mono(input, a, input.len() as int);
            }
        } else {
            lemma_loc_of_mono(input, a, b - 1);
        }
    }
}

/// In ordered spans, every earlier token ends no later than any later
/// one starts.
proof fn lemma_spans_chain(toks: Seq<SpecTok>, hi: int, i: int, j: int)
    requires
        spans_wf(toks, hi),
        0 <= i < j < toks.len(),
    ensures
        toks[i].end <= toks[j].start,
    decreases j - i,
{
    if i + 1 < j {
        lemma_spans_chain(toks, hi, i + 1, j);
    }
}

/// The invariant holds at every point of every run.
proof fn lemma_state_at_inv3(input: Seq<char>, pos: int)
    requires
        nul_free(input),
        0 <= pos <= input.len() + 1,
    ensures
        state_at(input, pos) matches Ok(m) ==> run_inv(input, pos, m),
        state_at(input, pos) matches Err(e) ==> spans_wf(e.toks, input.len() as int + 1),
    decreases pos,
{
    if pos > 0 {
        lemma_state_at_inv3(input, pos - 1);
        lemma_state_at_inv(input, pos - 1);
        match state_at(input, pos - 1) {
            Ok(m) => {
                if pos - 1 <= input.len() {
                    lemma_step_inv3(input, pos - 1, m);
                }
            },
            Err(_) => (),
        }
    }
}

/// Position monotonicity: any earlier token of a run ends at or before
/// the start of any later one, both in character offsets and in the
/// row/column positions handed to the consumer.
pub proof fn lemma_position_monotonic(input: Seq<char>, i: int, j: int)
    requires
        nul_free(input),
        0 <= i < j < lex_spec(input).toks.len(),
    ensures
        lex_spec(input).toks[i].end <= lex_spec(input).toks[j].start,
        loc_le(
            loc_of(input, lex_spec(input).toks[i].end as int),
            loc_of(input, lex_spec(input).toks[j].start as int),
        ),
{
    let toks = lex_spec(input).toks;
    let n = input.len() as int;
    lemma_state_at_inv3(input, n + 1);
    match state_at(input, n + 1) {
        Ok(m) => {
            assert(spans_wf(m.toks, m.start as int));
            lemma_spans_chain(m.toks, m.start as int, i, j);
        },
        Err(e) => {
            lemma_spans_chain(e.toks, n + 1, i, j);
        },
    }
    lemma_loc_of_mono(input, toks[i].end as int, toks[j].start as int);
}

/// Exactly tiled spans: each begins where the one before it ends.
pub open spec fn exact_tiling(input: Seq<char>, toks: Seq<SpecTok>) -> bool {
    if toks.len() == 0 {
        input.len() == 0
    } else {
        &&& toks[0].start == 0
        &&& toks.last().end == input.len()
        &&& forall|i: int| 0 <= i < toks.len() - 1 ==> (#[trigger] toks[i]).end == toks[i + 1].start
    }
}

/// The concatenation of the texts the spans of `toks` denote.
pub open spec fn spans_text(input: Seq<char>, toks: Seq<SpecTok>) -> Seq<char>
    decreases toks.len(),
{
    if toks.len() == 0 {
        Seq::empty()
    } else {
        input.subrange(toks[0].start as int, toks[0].end as int) + spans_text(
            input,
            toks.drop_first(),
        )
    }
}

/// Exactly tiled spans concatenate to the whole region they tile.
proof fn lemma_concat_tiled(input: Seq<char>, toks: Seq<SpecTok>, lo: int)
    requires
        forall|i: int| 0 <= i < toks.len() ==> (#[trigger] toks[i]).start <= toks[i].end,
        forall|i: int| 0 <= i < toks.len() ==> (#[trigger] toks[i]).end <= input.len(),
        toks.len() > 0 ==> toks[0].start == lo,
        forall|i: int| 0 <= i < toks.len() - 1 ==> (#[trigger] toks[i]).end == toks[i + 1].start,
        0 <= lo <= input.len(),
    ensures
        toks.len() == 0 ==> spans_text(input, toks) == Seq::<char>::empty(),
        toks.len() > 0 ==> lo <= toks.last().end && spans_text(input, toks) == input.subrange(
            lo,
            toks.last().end as int,
        ),
    decreases toks.len(),
{
    if toks.len() > 0 {
        let rest = toks.drop_first();
        assert forall|i: int| 0 <= i < rest.len() implies (#[trigger] rest[i]).start
            <= rest[i].end by {
            assert(rest[i] == toks[i + 1]);
        }
        assert forall|i: int| 0 <= i < rest.len() implies (#[trigger] rest[i]).end
            <= input.len() by {
            assert(rest[i] == toks[i + 1]);
        }
        assert forall|i: int| 0 <= i < rest.len() - 1 implies (#[trigger] rest[i]).end == rest[i
            + 1].start by {
            assert(rest[i] == toks[i + 1]);
            assert(rest[i + 1] == toks[i + 2]);
        }
        if rest.len() > 0 {
            assert(rest[0] == toks[1]);
            assert(toks[0].end == toks[1].start);
        }
        lemma_concat_tiled(input, rest, toks[0].end as int);
        if rest.len() == 0 {
            assert(toks.last() == toks[0]);
            assert(spans_text(input, toks) =~= input.subrange(lo, toks[0].end as int));
        } else {
            assert(rest.last() == toks.last());
            assert(spans_text(input, rest) == input.subrange(
                toks[0].end as int,
                rest.last().end as int,
            ));
            assert(input.subrange(lo, toks[0].end as int) + input.subrange(
                toks[0].end as int,
                toks.last().end as int,
            ) =~= input.subrange(lo, toks.last().end as int));
        }
    }
}

/// Every span of ordered tokens ends within the bound.
proof fn lemma_spans_all_bounded(toks: Seq<SpecTok>, hi: int)
    requires
        spans_wf(toks, hi),
    ensures
        forall|i: int| 0 <= i < toks.len() ==> (#[trigger] toks[i]).end <= hi,
{
    assert forall|i: int| 0 <= i < toks.len() implies (#[trigger] toks[i]).end <= hi by {
        if i < toks.len() - 1 {
            lemma_spans_chain(toks, hi, i, toks.len() - 1);
        }
    }
}

/// A successful run covers its whole input.
proof fn lemma_covers_to_end(input: Seq<char>)
    requires
        nul_free(input),
        input.len() > 0,
        lex_spec(input).err is None,
    ensures
        state_at(input, input.len() as int + 1) is Ok,
        run_inv(input, input.len() as int + 1, state_at(input, input.len() as int + 1)->Ok_0),
        covers(input, lex_spec(input).toks, input.len() as int),
{
    let toks = lex_spec(input).toks;
    let n = input.len() as int;
    lemma_state_at_inv3(input, n + 1);
    lemma_state_at_inv3(input, n);
    crate::syntax::model::lemma_state_at_inv(input, n);
    let m = state_at(input, n + 1)->Ok_0;
    if frontier(input, m) == n {
        assert(covers(input, toks, n));
    } else {
        // the run ended inside a comment: the uncovered tail is its body
        assert(state_at(input, n) is Ok) by {
            if state_at(input, n) is Err {
                crate::syntax::model::lemma_err_stays(input, n, n + 1);
            }
        }
        let mn = state_at(input, n)->Ok_0;
        assert(state_at(input, n + 1) == step(input, n, mn));
        assert(char_at(input, n) == '\0');
        assert(m.state matches LexerState::Comment);
        assert(comment_text(input, m.start as int, n));
        assert(covers(input, toks, n));
    }
}

/// Round-trip coverage: a successful run's token spans are ordered and
/// cover the input, every gap among them being a discarded comment
/// body; and whenever the spans tile the input exactly, concatenating
/// the text they denote rebuilds the input.
pub proof fn lemma_round_trip(input: Seq<char>)
    requires
        nul_free(input),
        lex_spec(input).err is None,
    ensures
        spans_wf(lex_spec(input).toks, input.len() as int + 1),
        covers(input, lex_spec(input).toks, input.len() as int),
        exact_tiling(input, lex_spec(input).toks) ==> spans_text(input, lex_spec(input).toks)
            == input,
{
    let toks = lex_spec(input).toks;
    let n = input.len() as int;
    if input.len() == 0 {
        assert(covers(input, toks, 0));
        if exact_tiling(input, toks) {
            assert(spans_text(input, toks) =~= input);
        }
    } else {
        lemma_covers_to_end(input);
        let m = state_at(input, n + 1)->Ok_0;
        assert(spans_wf(m.toks, m.start as int));
        assert(m.start <= n + 1);
        assert(spans_wf(toks, n + 1));
        if exact_tiling(input, toks) {
            lemma_spans_all_bounded(toks, n + 1);
            assert forall|i: int| 0 <= i < toks.len() implies (#[trigger] toks[i]).end
                <= input.len() by {
                if i < toks.len() - 1 {
                    lemma_spans_chain(toks, n + 1, i, toks.len() - 1);
                    assert(toks[toks.len() - 1].start <= toks.last().end);
                }
            }
            lemma_concat_tiled(input, toks, 0);
            assert(spans_text(input, toks) == input.subrange(0, n));
            assert(input.subrange(0, n) =~= input);
        }
    }
}

/// A token's payload is well formed: a numeric literal is non-empty,
/// made of digits and at most one dot; a string literal contains
/// neither a quote nor a newline.
pub open spec fn payload_wf(st: SpecTok) -> bool {
    match st.tok {
        crate::syntax::tokens::TokenModel::Number(s) => {
            &&& s.len() > 0
            &&& forall|k: int|
                0 <= k < s.len() ==> crate::syntax::tokens::is_digit(#[trigger] s[k]) || s[k] == '.'
            &&& forall|k: int, l: int| 0 <= k < l < s.len() && s[k] == '.' ==> s[l] != '.'
        },
        crate::syntax::tokens::TokenModel::StrLit(s) => forall|k: int|
            0 <= k < s.len() ==> #[trigger] s[k] != '"' && s[k] != '\n',
        _ => true,
    }
}

/// The payload part of the run invariant: every emitted token is well
/// formed, and the pending buffer of a number or string already obeys
/// the payload's shape.
pub open spec fn payload_inv(input: Seq<char>, pos: int, m: LexModel) -> bool {
    &&& forall|i: int| 0 <= i < m.toks.len() ==> payload_wf(#[trigger] m.toks[i])
    &&& (match m.state {
        LexerState::Number { parsing_decimals } => {
            &&& forall|k: int|
                m.start <= k < pos ==> crate::syntax::tokens::is_digit(#[trigger] input[k])
                    || input[k] == '.'
            &&& (!parsing_decimals ==> forall|k: int| m.start <= k < pos ==> #[trigger] input[k]
                != '.')
            &&& (parsing_decimals ==> forall|k: int, l: int|
                m.start <= k < l < pos && input[k] == '.' ==> input[l] != '.')
        },
        LexerState::StringLit => forall|k: int|
            m.start < k < pos ==> #[trigger] input[k] != '"' && input[k] != '\n',
        _ => true,
    })
}

/// A base-mode step preserves the payload invariant.
proof fn lemma_payload_base(input: Seq<char>, pos: int, m: LexModel)
    requires
        m.state == LexerState::Base,
        inv_model(pos, m),
        payload_inv(input, pos, m),
        0 <= pos <= input.len(),
    ensures
        payload_inv(input, pos + 1, base_step(input, pos, m)),
{
    let m2 = base_step(input, pos, m);
    let fl = crate::syntax::model::flush(input, pos, m);
    assert forall|i: int| 0 <= i < fl.len() implies payload_wf(#[trigger] fl[i]) by {
        if i < m.toks.len() {
            assert(fl[i] == m.toks[i]);
        }
    }
}

/// Every step preserves the payload invariant.
proof fn lemma_payload_step(input: Seq<char>, pos: int, m: LexModel)
    requires
        inv_model(pos, m),
        payload_inv(input, pos, m),
        0 <= pos <= input.len(),
    ensures
        step(input, pos, m) matches Ok(m2) ==> payload_inv(input, pos + 1, m2),
        step(input, pos, m) matches Err(e) ==> forall|i: int|
            0 <= i < e.toks.len() ==> payload_wf(#[trigger] e.toks[i]),
{
    let c = char_at(input, pos);
    match m.state {
        LexerState::Base => {
            lemma_payload_base(input, pos, m);
        },
        LexerState::StringLit => {
            if c == '\0' || c == '\n' {
            } else if c == '"' {
                let s = input.subrange(m.start as int + 1, pos);
                assert(forall|k: int| 0 <= k < s.len() ==> s[k] == input[m.start + 1 + k]);
                let m2 = (str_step(input, pos, m))->Ok_0;
                assert forall|i: int| 0 <= i < m2.toks.len() implies payload_wf(
                    #[trigger] m2.toks[i],
                ) by {
                    if i < m.toks.len() {
                        assert(m2.toks[i] == m.toks[i]);
                    } else {
                        assert(m2.toks[i] == m2.toks.last());
                    }
                }
            } else {
                assert(pos < input.len());
            }
        },
        LexerState::Comment => {
            let m2 = comment_step(input, pos, m);
            assert forall|i: int| 0 <= i < m2.toks.len() implies payload_wf(
                #[trigger] m2.toks[i],
            ) by {
                if i < m.toks.len() {
                    assert(m2.toks[i] == m.toks[i]);
                }
            }
        },
        LexerState::Operator => {
            let two = input.subrange(m.start as int, pos).push(c);
            if crate::syntax::tokens::operator_of(two)
                != crate::syntax::tokens::Operator::Invalid {
                let m2 = op_step(input, pos, m);
                assert forall|i: int| 0 <= i < m2.toks.len() implies payload_wf(
                    #[trigger] m2.toks[i],
                ) by {
                    if i < m.toks.len() {
                        assert(m2.toks[i] == m.toks[i]);
                    }
                }
            } else {
                let single = crate::syntax::tokens::operator_of(
                    input.subrange(m.start as int, pos),
                );
                let st = SpecTok {
                    tok: crate::syntax::tokens::TokenModel::Separator(
                        crate::syntax::tokens::Separator::Operator(single),
                    ),
                    start: m.start,
                    end: pos as nat,
                };
                let mmid = LexModel {
                    state: LexerState::Base,
                    start: pos as nat,
                    toks: m.toks.push(st),
                };
                assert forall|i: int| 0 <= i < mmid.toks.len() implies payload_wf(
                    #[trigger] mmid.toks[i],
                ) by {
                    if i < m.toks.len() {
                        assert(mmid.toks[i] == m.toks[i]);
                    }
                }
                lemma_payload_base(input, pos, mmid);
            }
        },
        LexerState::Number { parsing_decimals } => {
            if c == '.' && parsing_decimals {
            } else if c == '.' || crate::syntax::tokens::is_digit(c) {
                assert(pos < input.len());
            } else {
                let s = input.subrange(m.start as int, pos);
                assert(forall|k: int| 0 <= k < s.len() ==> s[k] == input[m.start + k]);
                let st = SpecTok {
                    tok: crate::syntax::tokens::TokenModel::Number(s),
                    start: m.start,
                    end: pos as nat,
                };
                assert(payload_wf(st));
                let mmid = LexModel {
                    state: LexerState::Base,
                    start: pos as nat,
                    toks: m.toks.push(st),
                };
                assert forall|i: int| 0 <= i < mmid.toks.len() implies payload_wf(
                    #[trigger] mmid.toks[i],
                ) by {
                    if i < m.toks.len() {
                        assert(mmid.toks[i] == m.toks[i]);
                    }
                }
                lemma_payload_base(input, pos, mmid);
            }
        },
        LexerState::Invalid => {
        },
    }
}

/// The payload invariant holds at every point of every run.
proof fn lemma_payload_at(input: Seq<char>, pos: int)
    requires
        0 <= pos <= input.len() + 1,
    ensures
        state_at(input, pos) matches Ok(m) ==> payload_inv(input, pos, m),
        state_at(input, pos) matches Err(e) ==> forall|i: int|
            0 <= i < e.toks.len() ==> payload_wf(#[trigger] e.toks[i]),
    decreases pos,
{
    if pos > 0 {
        lemma_payload_at(input, pos - 1);
        lemma_state_at_inv(input, pos - 1);
        match state_at(input, pos - 1) {
            Ok(m) => {
                lemma_payload_step(input, pos - 1, m);
            },
            Err(_) => (),
        }
    }
}

/// Every token of a run has a well-formed payload: numeric literals are
/// digits with at most one dot, and string literals contain neither the
/// terminating quote nor a newline.
pub proof fn lemma_payload_wf(input: Seq<char>, i: int)
    requires
        0 <= i < lex_spec(input).toks.len(),
    ensures
        payload_wf(lex_spec(input).toks[i]),
{
    lemma_payload_at(input, input.len() as int + 1);
}

} // verus!
