//! Library-wide guarantees, proved over the ghost model.
//!
//! Each lemma here states one of the tokenizer's laws: what whitespace-only
//! sources produce, how keyword classification interacts with maximal munch,
//! how dedents batch their `BlockEnd` tokens, that a lexing error ends the
//! stream, that every numeric span converts, and that the stream is a
//! function of the source text alone.

use vstd::prelude::*;
use crate::chars::{is_ws_char, is_ident_start_char, is_ident_cont_char};
use crate::model::{
    LexerModel, split_lines, step, stream, lex_spec, ws_run, leading_indent, is_number_span,
    word_token, scan_at, lemma_ws_run_end, lemma_ws_run_props, lemma_ident_run_props,
};
use crate::token::TokenModel;

verus! {

/// Splitting a text yields at least one line.
pub proof fn lemma_split_lines_nonempty(s: Seq<char>)
    ensures
        split_lines(s).len() >= 1,
    decreases s.len(),
{
    if s.len() > 0 {
        lemma_split_lines_nonempty(s.drop_last());
    }
}

/// Every character of every line of a whitespace-only text is whitespace.
proof fn lemma_split_lines_ws(s: Seq<char>)
    requires
        forall|i: int| 0 <= i < s.len() ==> is_ws_char(s[i]),
    ensures
        forall|k: int, j: int|
            0 <= k < split_lines(s).len() && 0 <= j < split_lines(s)[k].len()
                ==> is_ws_char(split_lines(s)[k][j]),
    decreases s.len(),
{
    if s.len() > 0 {
        assert(forall|i: int| 0 <= i < s.drop_last().len() ==> is_ws_char(s.drop_last()[i]));
        lemma_split_lines_ws(s.drop_last());
        lemma_split_lines_nonempty(s.drop_last());
        let p = split_lines(s.drop_last());
        if s.last() == '\n' {
            assert(forall|k: int, j: int|
                0 <= k < split_lines(s).len() && 0 <= j < split_lines(s)[k].len()
                    ==> is_ws_char(split_lines(s)[k][j])) by {
                assert(forall|k: int| 0 <= k < p.len() ==> split_lines(s)[k] == p[k]);
            }
        } else {
            let last = p.last().push(s.last());
            assert(is_ws_char(s.last()));
            assert(forall|j: int| 0 <= j < last.len() ==> is_ws_char(last[j])) by {
                assert(forall|j: int| 0 <= j < p.last().len() ==> last[j] == p.last()[j]);
                assert(last[last.len() - 1] == s.last());
            }
            assert(forall|k: int| 0 <= k < p.len() - 1 ==> split_lines(s)[k] == p[k]);
            assert(split_lines(s)[p.len() - 1] == last);
        }
    }
}

/// From the start of a line, with every remaining line whitespace-only, the
/// stream is one `Separator` per remaining line.
proof fn lemma_ws_lines_stream(m: LexerModel)
    requires
        m.wf(),
        !m.halted,
        m.at_line_start,
        forall|k: int, j: int|
            0 <= k < m.lines.len() && 0 <= j < m.lines[k].len() ==> is_ws_char(m.lines[k][j]),
    ensures
        stream(m) == Seq::new((m.lines.len() - m.line) as nat, |i: int| TokenModel::Separator),
    decreases m.lines.len() - m.line,
{
    if m.line >= m.lines.len() {
        assert(stream(m) =~= Seq::new(0, |i: int| TokenModel::Separator));
    } else {
        let line = m.lines[m.line];
        lemma_ws_run_end(line, 0, line.len() as int);
        let m2 = LexerModel { line: m.line + 1, pos: 0, at_line_start: true, ..m };
        assert(step(m) == (m2, Some(TokenModel::Separator)));
        lemma_ws_lines_stream(m2);
        assert(stream(m) =~= Seq::new(
            (m.lines.len() - m.line) as nat,
            |i: int| TokenModel::Separator,
        ));
    }
}

/// A whitespace-only source text lexes to exactly one `Separator` per
/// physical line, and nothing else.
pub proof fn lemma_whitespace_only(text: Seq<char>)
    requires
        forall|i: int| 0 <= i < text.len() ==> is_ws_char(text[i]),
    ensures
        lex_spec(text) == Seq::new(split_lines(text).len(), |i: int| TokenModel::Separator),
{
    lemma_split_lines_ws(text);
    lemma_ws_lines_stream(LexerModel::initial(split_lines(text)));
}

/// Maximal munch precedes keyword classification: scanning at an
/// identifier-start character consumes the whole maximal run of identifier
/// characters, and only then classifies the word.
pub proof fn lemma_maximal_munch(line: Seq<char>, p: int)
    requires
        0 <= p < line.len(),
        is_ident_start_char(line[p]),
    ensures
        p < scan_at(line, p).1 <= line.len(),
        forall|j: int| p <= j < scan_at(line, p).1 ==> is_ident_cont_char(line[j]),
        scan_at(line, p).1 == line.len() || !is_ident_cont_char(line[scan_at(line, p).1]),
        scan_at(line, p).0 == word_token(line.subrange(p, scan_at(line, p).1)),
{
    lemma_ident_run_props(line, p + 1);
}

/// A word that is not exactly one of the reserved keywords is an
/// `Identifier` carrying that word, never a keyword token: a keyword used as
/// a prefix of a longer word never splits off.
pub proof fn lemma_keyword_exact_match(w: Seq<char>)
    requires
        w != "is"@,
        w != "action"@,
        w != "end"@,
        w != "create"@,
    ensures
        word_token(w) == TokenModel::Identifier(w),
{
}

/// Pending dedent tokens drain first: the stream opens with one `BlockEnd`
/// per owed level, then continues from the same cursor with nothing owed.
pub proof fn lemma_pending_drain(m: LexerModel)
    requires
        m.active(),
    ensures
        stream(m) == Seq::new(m.pending as int as nat, |i: int| TokenModel::BlockEnd) + stream(
            LexerModel { pending: 0, ..m },
        ),
    decreases m.pending,
{
    if m.pending == 0 {
        assert(LexerModel { pending: 0, ..m } == m);
        assert(Seq::new(0, |i: int| TokenModel::BlockEnd) + stream(m) =~= stream(m));
    } else {
        let m1 = LexerModel { pending: (m.pending - 1) as nat, ..m };
        assert(stream(m) == seq![TokenModel::BlockEnd] + stream(m1));
        lemma_pending_drain(m1);
        assert(LexerModel { pending: 0, ..m1 } == LexerModel { pending: 0, ..m });
        assert(seq![TokenModel::BlockEnd] + (Seq::new(
            (m.pending - 1) as nat,
            |i: int| TokenModel::BlockEnd,
        ) + stream(LexerModel { pending: 0, ..m })) =~= Seq::new(
            m.pending as int as nat,
            |i: int| TokenModel::BlockEnd,
        ) + stream(LexerModel { pending: 0, ..m }));
    }
}

/// `BlockEnd` tokens are emitted strictly as a batch at the start of a line,
/// before the line's first real token: when the line's indentation drops
/// below the recorded depth the stream opens with exactly `old - new`
/// consecutive `BlockEnd` tokens, and when it rises or stays equal, with
/// none; in both cases it then continues at the line's first
/// non-whitespace column with the depth reconciled.
pub proof fn lemma_block_end_batch(m: LexerModel)
    requires
        m.wf(),
        m.active(),
        m.at_line_start,
        ws_run(m.lines[m.line], 0) < m.lines[m.line].len(),
    ensures
        ({
            let line = m.lines[m.line];
            let u = leading_indent(line);
            let k: int = if u < m.indent {
                m.indent - u
            } else {
                0
            };
            let m2 = LexerModel {
                pos: ws_run(line, 0) as int,
                at_line_start: false,
                indent: u,
                pending: 0,
                ..m
            };
            stream(m) == Seq::new(k as nat, |i: int| TokenModel::BlockEnd) + stream(m2)
        }),
{
    let line = m.lines[m.line];
    let p = ws_run(line, 0) as int;
    let u = leading_indent(line);
    lemma_ws_run_props(line, 0);
    let m2 = LexerModel { pos: p, at_line_start: false, indent: u, pending: 0, ..m };
    if u < m.indent {
        let m1 = LexerModel {
            pos: p,
            at_line_start: false,
            indent: u,
            pending: (m.indent - u - 1) as nat,
            ..m
        };
        assert(step(m) == (m1, Some(TokenModel::BlockEnd)));
        assert(stream(m) == seq![TokenModel::BlockEnd] + stream(m1));
        lemma_pending_drain(m1);
        assert(LexerModel { pending: 0, ..m1 } == m2);
        assert(seq![TokenModel::BlockEnd] + (Seq::new(
            (m.indent - u - 1) as nat,
            |i: int| TokenModel::BlockEnd,
        ) + stream(m2)) =~= Seq::new((m.indent - u) as nat, |i: int| TokenModel::BlockEnd)
            + stream(m2));
    } else {
        assert(ws_run(line, p) == 0);
        assert(step(m2) == step(m));
        assert(stream(m) =~= stream(m2));
        assert(Seq::new(0, |i: int| TokenModel::BlockEnd) + stream(m2) =~= stream(m2));
    }
}

/// A lexing error terminates the stream: if a `LexError` appears at all, it
/// is the last token, and nothing from any later column or line follows it.
pub proof fn lemma_error_is_last(m: LexerModel)
    ensures
        forall|i: int|
            0 <= i < stream(m).len() && stream(m)[i] is LexError ==> i == stream(m).len() - 1,
    decreases stream(m).len(),
{
    if m.active() {
        let r = step(m);
        match r.1 {
            Some(tok) => {
                assert(stream(m) == seq![tok] + stream(r.0));
                if tok is LexError {
                    assert(r.0.halted);
                    assert(stream(r.0) =~= Seq::<TokenModel>::empty());
                } else {
                    lemma_error_is_last(r.0);
                    assert(forall|i: int|
                        1 <= i < stream(m).len() ==> stream(m)[i] == stream(r.0)[i - 1]);
                }
            },
            None => {},
        }
    }
}

/// Every `Number` token the stream holds carries a well-formed numeric span:
/// decimal digits with at most one period, so its conversion to a floating
/// value always succeeds.
pub proof fn lemma_number_spans_valid(m: LexerModel)
    ensures
        forall|i: int|
            0 <= i < stream(m).len() ==> (#[trigger] stream(m)[i] matches TokenModel::Number(s)
                ==> is_number_span(s)),
    decreases stream(m).len(),
{
    if m.active() {
        let r = step(m);
        match r.1 {
            Some(tok) => {
                assert(stream(m) == seq![tok] + stream(r.0));
                assert(tok matches TokenModel::Number(s) ==> is_number_span(s));
                lemma_number_spans_valid(r.0);
                assert(forall|i: int|
                    1 <= i < stream(m).len() ==> stream(m)[i] == stream(r.0)[i - 1]);
            },
            None => {},
        }
    }
}

/// Idempotence: the token stream is a function of the source text alone, so
/// re-running the tokenizer over the same input yields the identical
/// sequence.
pub proof fn lemma_lex_deterministic(text: Seq<char>, r1: Seq<TokenModel>, r2: Seq<TokenModel>)
    requires
        r1 == lex_spec(text),
        r2 == lex_spec(text),
    ensures
        r1 == r2,
{
}

} // verus!
