//! The ghost model of the tokenizer.
//!
//! The model is a small state machine over the source text split into
//! physical lines.  [`step`] produces at most one token and the successor
//! state; [`stream`] iterates it to the full token sequence; [`lex_spec`]
//! composes the line split with the stream and is the meaning of lexing a
//! whole source text.

use vstd::prelude::*;
use crate::chars::{
    is_ws_char, is_ident_start_char, is_ident_cont_char, is_digit_char, is_hex_digit_char,
    is_num_cont_char,
};
use crate::token::TokenModel;

verus! {

/// The source text split into physical lines at `'\n'`.  An empty text is
/// one empty line; a trailing `'\n'` opens a final empty line.
pub open spec fn split_lines(s: Seq<char>) -> Seq<Seq<char>>
    decreases s.len(),
{
    if s.len() == 0 {
        seq![Seq::<char>::empty()]
    } else if s.last() == '\n' {
        split_lines(s.drop_last()).push(Seq::<char>::empty())
    } else {
        let p = split_lines(s.drop_last());
        p.update(p.len() - 1, p.last().push(s.last()))
    }
}

/// Length of the whitespace run of `line` that starts at `i`.
pub open spec fn ws_run(line: Seq<char>, i: int) -> nat
    decreases line.len() - i when 0 <= i <= line.len()
{
    if i >= line.len() {
        0
    } else if is_ws_char(line[i]) {
        1 + ws_run(line, i + 1)
    } else {
        0
    }
}

/// Length of the identifier-continuation run of `line` that starts at `i`.
pub open spec fn ident_run(line: Seq<char>, i: int) -> nat
    decreases line.len() - i when 0 <= i <= line.len()
{
    if i >= line.len() {
        0
    } else if is_ident_cont_char(line[i]) {
        1 + ident_run(line, i + 1)
    } else {
        0
    }
}

/// Length of the numeric-continuation run of `line` that starts at `i`.
pub open spec fn num_run(line: Seq<char>, i: int) -> nat
    decreases line.len() - i when 0 <= i <= line.len()
{
    if i >= line.len() {
        0
    } else if is_num_cont_char(line[i]) {
        1 + num_run(line, i + 1)
    } else {
        0
    }
}

/// Indentation units contributed by the whitespace run of `line` starting at
/// `i`, with `sp` spaces already accumulated toward the next unit.  Every
/// fourth space yields one unit, a tab yields one unit by itself, and other
/// whitespace is skipped without contributing; the scan stops at the first
/// non-whitespace character.
pub open spec fn indent_units(line: Seq<char>, i: int, sp: int) -> nat
    decreases line.len() - i when 0 <= i <= line.len()
{
    if i >= line.len() || !is_ws_char(line[i]) {
        0
    } else if line[i] == ' ' {
        if sp == 3 {
            1 + indent_units(line, i + 1, 0)
        } else {
            indent_units(line, i + 1, sp + 1)
        }
    } else if line[i] == '\t' {
        1 + indent_units(line, i + 1, sp)
    } else {
        indent_units(line, i + 1, sp)
    }
}

/// The indentation depth of a line: units counted over its leading
/// whitespace.
pub open spec fn leading_indent(line: Seq<char>) -> nat {
    indent_units(line, 0, 0)
}

/// How many `'.'` characters a span holds.
pub open spec fn dot_count(s: Seq<char>) -> nat
    decreases s.len(),
{
    if s.len() == 0 {
        0
    } else {
        dot_count(s.drop_last()) + if s.last() == '.' {
            1nat
        } else {
            0nat
        }
    }
}

/// Whether a span holds at least one decimal digit.
pub open spec fn has_digit(s: Seq<char>) -> bool {
    exists|i: int| 0 <= i < s.len() && is_digit_char(s[i])
}

/// A well-formed numeric literal span: decimal digits and at most one
/// period, with at least one digit.  Exactly the spans whose conversion to a
/// floating value always succeeds.
pub open spec fn is_number_span(s: Seq<char>) -> bool {
    &&& forall|i: int| 0 <= i < s.len() ==> is_digit_char(s[i]) || s[i] == '.'
    &&& dot_count(s) <= 1
    &&& has_digit(s)
}

/// Classification of a maximal identifier run: the reserved keywords take
/// precedence over `Identifier` exactly when the whole word matches.
pub open spec fn word_token(w: Seq<char>) -> TokenModel {
    if w == "is"@ {
        TokenModel::Is
    } else if w == "action"@ {
        TokenModel::Action
    } else if w == "end"@ {
        TokenModel::BlockEnd
    } else if w == "create"@ {
        TokenModel::Create
    } else {
        TokenModel::Identifier(w)
    }
}

/// The token scanned at position `p` of `line`, where `line[p]` is not
/// whitespace, together with the cursor position just past it.
pub open spec fn scan_at(line: Seq<char>, p: int) -> (TokenModel, int) {
    let c = line[p];
    if is_ident_start_char(c) {
        let q = p + 1 + ident_run(line, p + 1);
        (word_token(line.subrange(p, q)), q)
    } else if is_digit_char(c) || (c == '.' && p + 1 < line.len() && is_hex_digit_char(
        line[p + 1],
    )) {
        let q = p + 1 + num_run(line, p + 1);
        let span = line.subrange(p, q);
        if is_number_span(span) {
            (TokenModel::Number(span), q)
        } else {
            (TokenModel::LexError, q)
        }
    } else if c == '.' {
        (TokenModel::Period, p + 1)
    } else if c == '(' {
        (TokenModel::LeftParen, p + 1)
    } else if c == ')' {
        (TokenModel::RightParen, p + 1)
    } else if c == ',' {
        (TokenModel::Comma, p + 1)
    } else if c == ';' {
        (TokenModel::Separator, p + 1)
    } else if c == ':' {
        (TokenModel::Colon, p + 1)
    } else if c == '!' {
        (TokenModel::Yell, p + 1)
    } else if c == '+' || c == '-' || c == '/' || c == '*' {
        (TokenModel::BinaryOp(c), p + 1)
    } else {
        (TokenModel::LexError, p + 1)
    }
}

/// The tokenizer's state: the split source, a cursor (current line and
/// column), the recorded indentation depth, the count of `BlockEnd` tokens
/// still owed from a dedent, and whether a lexing error has halted the
/// stream.
pub ghost struct LexerModel {
    pub lines: Seq<Seq<char>>,
    pub line: int,
    pub pos: int,
    pub at_line_start: bool,
    pub indent: nat,
    pub pending: nat,
    pub halted: bool,
}

impl LexerModel {
    /// The state a fresh tokenizer starts in: cursor at line 0, column 0,
    /// indentation depth 0.
    pub open spec fn initial(lines: Seq<Seq<char>>) -> LexerModel {
        LexerModel {
            lines,
            line: 0,
            pos: 0,
            at_line_start: true,
            indent: 0,
            pending: 0,
            halted: false,
        }
    }

    /// Well-formedness: the cursor stays within the split source, and at the
    /// start of a line it sits at column 0 with no dedent tokens owed.
    pub open spec fn wf(self) -> bool {
        &&& 0 <= self.line <= self.lines.len()
        &&& (self.line < self.lines.len() ==> 0 <= self.pos <= self.lines[self.line].len())
        &&& (self.at_line_start ==> self.pos == 0 && self.pending == 0)
    }

    /// Whether the tokenizer still produces tokens: no error seen and lines
    /// remain.
    pub open spec fn active(self) -> bool {
        !self.halted && self.line < self.lines.len()
    }
}

/// The state after a scanned token `t` ending at column `q`, with the
/// line's indentation reconciled to `u`: a lexing error halts the stream;
/// any other token, the `Separator` of `;` included, advances the column
/// past the consumed span and nothing more.  The cursor moves to the next
/// physical line only when the line is exhausted, in [`step`].
pub open spec fn scan_result(m: LexerModel, t: TokenModel, q: int, u: nat) -> (
    LexerModel,
    Option<TokenModel>,
) {
    if t is LexError {
        (
            LexerModel { pos: q, at_line_start: false, indent: u, halted: true, ..m },
            Some(TokenModel::LexError),
        )
    } else {
        (LexerModel { pos: q, at_line_start: false, indent: u, ..m }, Some(t))
    }
}

/// One move of the tokenizer: the successor state and the token produced, or
/// `None` once the stream has ended.
pub open spec fn step(m: LexerModel) -> (LexerModel, Option<TokenModel>) {
    if !m.active() {
        (m, None::<TokenModel>)
    } else if m.pending > 0 {
        (
            LexerModel { pending: (m.pending - 1) as nat, ..m },
            Some(TokenModel::BlockEnd),
        )
    } else {
        let line = m.lines[m.line];
        let p = m.pos + ws_run(line, m.pos);
        if p >= line.len() {
            (
                LexerModel { line: m.line + 1, pos: 0, at_line_start: true, ..m },
                Some(TokenModel::Separator),
            )
        } else if m.at_line_start && leading_indent(line) < m.indent {
            let u = leading_indent(line);
            (
                LexerModel {
                    pos: p,
                    at_line_start: false,
                    indent: u,
                    pending: (m.indent - u - 1) as nat,
                    ..m
                },
                Some(TokenModel::BlockEnd),
            )
        } else {
            let u = if m.at_line_start {
                leading_indent(line)
            } else {
                m.indent
            };
            let r = scan_at(line, p);
            scan_result(m, r.0, r.1, u)
        }
    }
}

/// Lines not yet left behind; first component of the step measure.
pub open spec fn lines_rem(m: LexerModel) -> int {
    if m.line <= m.lines.len() {
        m.lines.len() - m.line
    } else {
        0
    }
}

/// Columns remaining in the current line; second component of the step
/// measure.
pub open spec fn pos_rem(m: LexerModel) -> int {
    if m.line < m.lines.len() && m.pos <= m.lines[m.line].len() {
        m.lines[m.line].len() - m.pos
    } else {
        0
    }
}

/// Whether indentation reconciliation is still owed on the current line;
/// third component of the step measure.
pub open spec fn start_flag(m: LexerModel) -> int {
    if m.at_line_start {
        1
    } else {
        0
    }
}

/// Every token the tokenizer still produces from state `m`, in order.
pub open spec fn stream(m: LexerModel) -> Seq<TokenModel>
    decreases lines_rem(m), pos_rem(m), start_flag(m), m.pending,
    via stream_decreases
{
    if !m.active() {
        Seq::<TokenModel>::empty()
    } else {
        let r = step(m);
        match r.1 {
            Some(tok) => seq![tok] + stream(r.0),
            None => Seq::<TokenModel>::empty(),
        }
    }
}

#[via_fn]
proof fn stream_decreases(m: LexerModel) {
    if m.active() && m.pending == 0 {
        let line = m.lines[m.line];
        let p = m.pos + ws_run(line, m.pos);
        assert(p >= m.pos);
        if p < line.len() {
            if !(m.at_line_start && leading_indent(line) < m.indent) {
                let r = scan_at(line, p);
                assert(r.1 >= p + 1);
            }
        }
    }
}

/// The full token sequence of a source text: split into physical lines, then
/// drained from the initial state.
pub open spec fn lex_spec(text: Seq<char>) -> Seq<TokenModel> {
    stream(LexerModel::initial(split_lines(text)))
}

/// The whitespace run of `line` that starts at `a` ends exactly at `b`.
pub proof fn lemma_ws_run_end(line: Seq<char>, a: int, b: int)
    requires
        0 <= a <= b <= line.len(),
        forall|j: int| a <= j < b ==> is_ws_char(line[j]),
        b == line.len() || !is_ws_char(line[b]),
    ensures
        a + ws_run(line, a) == b,
    decreases b - a,
{
    if a < b {
        lemma_ws_run_end(line, a + 1, b);
    }
}

/// The identifier-continuation run of `line` that starts at `a` ends exactly
/// at `b`.
pub proof fn lemma_ident_run_end(line: Seq<char>, a: int, b: int)
    requires
        0 <= a <= b <= line.len(),
        forall|j: int| a <= j < b ==> is_ident_cont_char(line[j]),
        b == line.len() || !is_ident_cont_char(line[b]),
    ensures
        a + ident_run(line, a) == b,
    decreases b - a,
{
    if a < b {
        lemma_ident_run_end(line, a + 1, b);
    }
}

/// The numeric-continuation run of `line` that starts at `a` ends exactly at
/// `b`.
pub proof fn lemma_num_run_end(line: Seq<char>, a: int, b: int)
    requires
        0 <= a <= b <= line.len(),
        forall|j: int| a <= j < b ==> is_num_cont_char(line[j]),
        b == line.len() || !is_num_cont_char(line[b]),
    ensures
        a + num_run(line, a) == b,
    decreases b - a,
{
    if a < b {
        lemma_num_run_end(line, a + 1, b);
    }
}

/// The whitespace run of `line` starting at `i` stays in the line, holds
/// only whitespace, and is maximal.
pub proof fn lemma_ws_run_props(line: Seq<char>, i: int)
    requires
        0 <= i <= line.len(),
    ensures
        i + ws_run(line, i) <= line.len(),
        forall|j: int| i <= j < i + ws_run(line, i) ==> is_ws_char(line[j]),
        i + ws_run(line, i) == line.len() || !is_ws_char(line[i + ws_run(line, i)]),
    decreases line.len() - i,
{
    if i < line.len() && is_ws_char(line[i]) {
        lemma_ws_run_props(line, i + 1);
    }
}

/// The identifier-continuation run of `line` starting at `i` stays in the
/// line, holds only identifier characters, and is maximal.
pub proof fn lemma_ident_run_props(line: Seq<char>, i: int)
    requires
        0 <= i <= line.len(),
    ensures
        i + ident_run(line, i) <= line.len(),
        forall|j: int| i <= j < i + ident_run(line, i) ==> is_ident_cont_char(line[j]),
        i + ident_run(line, i) == line.len() || !is_ident_cont_char(
            line[i + ident_run(line, i)],
        ),
    decreases line.len() - i,
{
    if i < line.len() && is_ident_cont_char(line[i]) {
        lemma_ident_run_props(line, i + 1);
    }
}

} // verus!
