//! The executable tokenizer, proved to follow the ghost model step by step.

use vstd::prelude::*;
use crate::chars::{is_ws, is_ident_start, is_ident_cont, is_digit, is_hex_digit, is_num_cont};
use crate::chars::{is_ws_char, is_ident_cont_char, is_digit_char, is_num_cont_char};
use crate::model::{
    LexerModel, split_lines, step, stream, ws_run, indent_units, leading_indent, dot_count,
    has_digit, is_number_span, word_token, scan_at, lemma_ws_run_end, lemma_ident_run_end,
    lemma_num_run_end,
};
use crate::token::{Token, TokenModel};
use vstd::string::StrSliceExecFns;

verus! {

/// Relies on `String::push` from std: appends the given character to the end
/// of the string.
#[verifier::external_body]
fn push_char(s: &mut String, c: char)
    ensures
        final(s)@ == old(s)@.push(c),
{
    s.push(c);
}

/// Builds the string holding exactly the given characters, in order.
fn chars_to_string(v: &Vec<char>) -> (s: String)
    ensures
        s@ == v@,
{
    let mut s = String::new();
    let mut k: usize = 0;
    while k < v.len()
        invariant
            k <= v.len(),
            s@ == v@.subrange(0, k as int),
        decreases v.len() - k,
    {
        let ghost pre = s@;
        push_char(&mut s, v[k]);
        k += 1;
        proof {
            assert(v@.subrange(0, k as int) =~= pre.push(v@[k - 1]));
        }
    }
    proof {
        assert(v@.subrange(0, v@.len() as int) =~= v@);
    }
    s
}

/// Classifies a maximal identifier run: a reserved keyword exactly when the
/// whole word matches one, an `Identifier` otherwise.
fn classify_word(w: &Vec<char>) -> (t: Token)
    ensures
        t@ == word_token(w@),
{
    proof {
        reveal_strlit("is");
        reveal_strlit("action");
        reveal_strlit("end");
        reveal_strlit("create");
    }
    if w.len() == 2 && w[0] == 'i' && w[1] == 's' {
        proof {
            assert(w@ =~= "is"@);
        }
        Token::Is
    } else if w.len() == 6 && w[0] == 'a' && w[1] == 'c' && w[2] == 't' && w[3] == 'i' && w[4]
        == 'o' && w[5] == 'n' {
        proof {
            assert(w@ =~= "action"@);
        }
        Token::Action
    } else if w.len() == 3 && w[0] == 'e' && w[1] == 'n' && w[2] == 'd' {
        proof {
            assert(w@ =~= "end"@);
        }
        Token::BlockEnd
    } else if w.len() == 6 && w[0] == 'c' && w[1] == 'r' && w[2] == 'e' && w[3] == 'a' && w[4]
        == 't' && w[5] == 'e' {
        proof {
            assert(w@ =~= "create"@);
        }
        Token::Create
    } else {
        Token::Identifier(chars_to_string(w))
    }
}

/// The tokenizer.  It owns the source split into physical lines, a cursor
/// over it, the recorded indentation depth, and produces tokens one at a
/// time via [`Lexer::next_token`] or all at once via [`Lexer::lex`].
pub struct Lexer {
    lines: Vec<Vec<char>>,
    line: usize,
    pos: usize,
    at_line_start: bool,
    indentation: usize,
    pending_ends: usize,
    halted: bool,
}

impl View for Lexer {
    type V = LexerModel;

    closed spec fn view(&self) -> LexerModel {
        LexerModel {
            lines: self.lines.deep_view(),
            line: self.line as int,
            pos: self.pos as int,
            at_line_start: self.at_line_start,
            indent: self.indentation as nat,
            pending: self.pending_ends as nat,
            halted: self.halted,
        }
    }
}

impl Lexer {
    /// Well-formedness of the tokenizer's cursor, as the model states it.
    pub open spec fn wf(self) -> bool {
        self@.wf()
    }

    /// Constructs a tokenizer over the given source text: the text split
    /// into physical lines, the cursor at line 0, column 0, and indentation
    /// depth 0.
    pub fn new(text: &str) -> (lexer: Lexer)
        ensures
            lexer@ == LexerModel::initial(split_lines(text@)),
            lexer.wf(),
    {
        let n = text.unicode_len();
        let mut lines: Vec<Vec<char>> = Vec::new();
        let mut cur: Vec<char> = Vec::new();
        let mut i: usize = 0;
        proof {
            assert(text@.take(0) =~= Seq::<char>::empty());
            assert(cur.deep_view() =~= Seq::<char>::empty());
            assert(lines.deep_view() =~= Seq::<Seq<char>>::empty());
            assert(lines.deep_view().push(cur.deep_view()) =~= split_lines(text@.take(0)));
        }
        while i < n
            invariant
                i <= n,
                n == text@.len(),
                lines.deep_view().push(cur.deep_view()) == split_lines(text@.take(i as int)),
            decreases n - i,
        {
            let ghost prev_lines = lines.deep_view();
            let ghost prev_cur = cur.deep_view();
            let c = text.get_char(i);
            proof {
                assert(text@.take((i + 1) as int).drop_last() =~= text@.take(i as int));
                assert(text@.take((i + 1) as int).last() == text@[i as int]);
            }
            if c == '\n' {
                lines.push(cur);
                cur = Vec::new();
                proof {
                    assert(lines.deep_view() =~= prev_lines.push(prev_cur));
                    assert(cur.deep_view() =~= Seq::<char>::empty());
                    assert(lines.deep_view().push(cur.deep_view()) =~= split_lines(
                        text@.take((i + 1) as int),
                    ));
                }
            } else {
                cur.push(c);
                proof {
                    let p = split_lines(text@.take(i as int));
                    assert(p == prev_lines.push(prev_cur));
                    assert(p.len() >= 1);
                    assert(cur.deep_view() =~= prev_cur.push(c));
                    assert(lines.deep_view() =~= prev_lines);
                    assert(p.update(p.len() - 1, p.last().push(c)) =~= prev_lines.push(
                        prev_cur.push(c),
                    ));
                    assert(lines.deep_view().push(cur.deep_view()) =~= split_lines(
                        text@.take((i + 1) as int),
                    ));
                }
            }
            i += 1;
        }
        proof {
            assert(text@.take(n as int) =~= text@);
        }
        let ghost closed_lines = lines.deep_view();
        let ghost last_line = cur.deep_view();
        lines.push(cur);
        proof {
            assert(lines.deep_view() =~= closed_lines.push(last_line));
        }
        let lexer = Lexer {
            lines,
            line: 0,
            pos: 0,
            at_line_start: true,
            indentation: 0,
            pending_ends: 0,
            halted: false,
        };
        proof {
            assert(lexer@.lines == split_lines(text@));
        }
        lexer
    }

    /// Produces the next token, or `None` once the stream has ended: every
    /// physical line ends in a `Separator` and a `;` yields one in place,
    /// consuming only its own character; a decrease in leading indentation
    /// yields one `BlockEnd` per closed level before the line's first real
    /// token; and an unclassifiable character yields a `LexError` that halts
    /// the stream.  The result and the successor state are exactly those of
    /// the model's [`step`].
    pub fn next_token(&mut self) -> (t: Option<Token>)
        requires
            old(self).wf(),
        ensures
            final(self).wf(),
            ({
                let r = step(old(self)@);
                final(self)@ == r.0 && t.deep_view() == r.1
            }),
    {
        let ghost m0 = self@;
        if self.halted || self.line >= self.lines.len() {
            return None;
        }
        if self.pending_ends > 0 {
            self.pending_ends -= 1;
            proof {
                assert(self@ == step(m0).0);
            }
            return Some(Token::BlockEnd);
        }
        let ghost ln = m0.lines[m0.line];
        let line_len = self.lines[self.line].len();
        proof {
            assert(ln =~= self.lines@[self.line as int].deep_view());
        }
        // Whitespace scan: find the first non-whitespace column, counting
        // indentation units over the run.
        let mut i = self.pos;
        let mut units: usize = 0;
        let mut sp: usize = 0;
        loop
            invariant
                self == old(self),
                !self.halted,
                self.pending_ends == 0,
                self.line < self.lines.len(),
                self.pos <= i <= line_len,
                line_len == ln.len(),
                ln == self@.lines[self@.line],
                forall|j: int| self.pos <= j < i ==> is_ws_char(ln[j]),
                sp < 4,
                units <= i,
                units + indent_units(ln, i as int, sp as int) == indent_units(
                    ln,
                    self.pos as int,
                    0,
                ),
            ensures
                self == old(self),
                self.pos <= i <= line_len,
                forall|j: int| self.pos <= j < i ==> is_ws_char(ln[j]),
                i == line_len || !is_ws_char(ln[i as int]),
                units == indent_units(ln, self.pos as int, 0),
            decreases line_len - i,
        {
            if i >= line_len {
                break;
            }
            let c = self.lines[self.line][i];
            proof {
                assert(c == ln[i as int]);
            }
            if !is_ws(c) {
                break;
            }
            if c == ' ' {
                sp += 1;
                if sp == 4 {
                    units += 1;
                    sp = 0;
                }
            } else if c == '\t' {
                units += 1;
            }
            i += 1;
        }
        proof {
            lemma_ws_run_end(ln, self.pos as int, i as int);
            assert(m0.pos + ws_run(ln, m0.pos) == i as int);
        }
        if i >= line_len {
            // Blank or whitespace-only remainder: the line yields a
            // `Separator` and the cursor moves to the next physical line.
            self.pos = 0;
            self.at_line_start = true;
            self.line += 1;
            proof {
                assert(self@ == step(m0).0);
            }
            return Some(Token::Separator);
        }
        if self.at_line_start {
            // Indentation reconciliation, once per physical line.
            self.at_line_start = false;
            if units < self.indentation {
                let k = self.indentation - units;
                self.indentation = units;
                self.pos = i;
                self.pending_ends = k - 1;
                proof {
                    assert(leading_indent(ln) == units);
                    assert(self@ == step(m0).0);
                }
                return Some(Token::BlockEnd);
            }
            self.indentation = units;
        }
        let ghost u = self@.indent;
        proof {
            assert(u == if m0.at_line_start {
                leading_indent(ln)
            } else {
                m0.indent
            });
        }
        let start = i;
        let c = self.lines[self.line][start];
        proof {
            assert(c == ln[start as int]);
        }
        if is_ident_start(c) {
            // Maximal identifier run, then keyword classification.
            let mut j = start + 1;
            loop
                invariant
                    self.line < self.lines.len(),
                    ln == self@.lines[self@.line],
                    line_len == ln.len(),
                    start + 1 <= j <= line_len,
                    forall|t: int| start + 1 <= t < j ==> is_ident_cont_char(ln[t]),
                ensures
                    start + 1 <= j <= line_len,
                    forall|t: int| start + 1 <= t < j ==> is_ident_cont_char(ln[t]),
                    j == line_len || !is_ident_cont_char(ln[j as int]),
                decreases line_len - j,
            {
                if j >= line_len {
                    break;
                }
                let ch = self.lines[self.line][j];
                if !is_ident_cont(ch) {
                    break;
                }
                j += 1;
            }
            proof {
                lemma_ident_run_end(ln, (start + 1) as int, j as int);
            }
            let mut word: Vec<char> = Vec::new();
            let mut k = start;
            while k < j
                invariant
                    self.line < self.lines.len(),
                    ln == self@.lines[self@.line],
                    line_len == ln.len(),
                    start <= k <= j <= line_len,
                    word@ == ln.subrange(start as int, k as int),
                decreases j - k,
            {
                let ghost prev = word@;
                word.push(self.lines[self.line][k]);
                k += 1;
                proof {
                    assert(ln.subrange(start as int, k as int) =~= prev.push(ln[k - 1]));
                }
            }
            let tok = classify_word(&word);
            self.pos = j;
            self.at_line_start = false;
            proof {
                assert(scan_at(ln, start as int) == (tok@, j as int));
                assert(!(tok@ is LexError));
                assert(self@ == step(m0).0);
            }
            return Some(tok);
        }
        let starts_number = is_digit(c) || (c == '.' && start + 1 < line_len && is_hex_digit(
            self.lines[self.line][start + 1],
        ));
        if starts_number {
            // Maximal numeric run, then validation of the span.
            let mut j = start + 1;
            loop
                invariant
                    self.line < self.lines.len(),
                    ln == self@.lines[self@.line],
                    line_len == ln.len(),
                    start + 1 <= j <= line_len,
                    forall|t: int| start + 1 <= t < j ==> is_num_cont_char(ln[t]),
                ensures
                    start + 1 <= j <= line_len,
                    forall|t: int| start + 1 <= t < j ==> is_num_cont_char(ln[t]),
                    j == line_len || !is_num_cont_char(ln[j as int]),
                decreases line_len - j,
            {
                if j >= line_len {
                    break;
                }
                let ch = self.lines[self.line][j];
                if !is_num_cont(ch) {
                    break;
                }
                j += 1;
            }
            proof {
                lemma_num_run_end(ln, (start + 1) as int, j as int);
            }
            let mut span: Vec<char> = Vec::new();
            let mut dots: usize = 0;
            let mut saw_digit = false;
            let mut clean = true;
            let mut k = start;
            while k < j
                invariant
                    self.line < self.lines.len(),
                    ln == self@.lines[self@.line],
                    line_len == ln.len(),
                    start <= k <= j <= line_len,
                    span@ == ln.subrange(start as int, k as int),
                    dots <= k - start,
                    dots as nat == dot_count(ln.subrange(start as int, k as int)),
                    saw_digit == has_digit(ln.subrange(start as int, k as int)),
                    clean == (forall|t: int|
                        start <= t < k ==> is_digit_char(ln[t]) || ln[t] == '.'),
                decreases j - k,
            {
                let ghost prev = span@;
                let ch = self.lines[self.line][k];
                span.push(ch);
                if is_digit(ch) {
                    saw_digit = true;
                } else if ch == '.' {
                    dots += 1;
                } else {
                    clean = false;
                }
                k += 1;
                proof {
                    let cur_s = ln.subrange(start as int, k as int);
                    assert(cur_s =~= prev.push(ln[k - 1]));
                    assert(cur_s.drop_last() =~= prev);
                    assert(has_digit(cur_s) == (has_digit(prev) || is_digit_char(ln[k - 1])))
                        by {
                        if has_digit(cur_s) {
                            let t = choose|t: int|
                                0 <= t < cur_s.len() && is_digit_char(cur_s[t]);
                            if t < prev.len() {
                                assert(prev[t] == cur_s[t]);
                                assert(has_digit(prev));
                            } else {
                                assert(cur_s[t] == ln[k - 1]);
                            }
                        }
                        if has_digit(prev) {
                            let t = choose|t: int| 0 <= t < prev.len() && is_digit_char(prev[t]);
                            assert(cur_s[t] == prev[t]);
                            assert(has_digit(cur_s));
                        }
                        if is_digit_char(ln[k - 1]) {
                            assert(cur_s[cur_s.len() - 1] == ln[k - 1]);
                            assert(has_digit(cur_s));
                        }
                    }
                }
            }
            let is_valid = clean && dots <= 1 && saw_digit;
            proof {
                let s = ln.subrange(start as int, j as int);
                assert(span@ == s);
                assert(clean == (forall|i: int|
                    0 <= i < s.len() ==> is_digit_char(s[i]) || s[i] == '.')) by {
                    if clean {
                        assert(forall|i: int| 0 <= i < s.len() ==> (is_digit_char(#[trigger] s[i])
                            || s[i] == '.')) by {
                            assert(forall|i: int|
                                0 <= i < s.len() ==> #[trigger] s[i] == ln[i + start]);
                        }
                    } else {
                        let t = choose|t: int|
                            start <= t < j && !(is_digit_char(ln[t]) || ln[t] == '.');
                        assert(s[t - start] == ln[t]);
                    }
                }
                assert(is_valid == is_number_span(s));
            }
            if is_valid {
                let text = chars_to_string(&span);
                self.pos = j;
                self.at_line_start = false;
                proof {
                    assert(scan_at(ln, start as int) == (
                        TokenModel::Number(ln.subrange(start as int, j as int)),
                        j as int,
                    ));
                    assert(self@ == step(m0).0);
                }
                return Some(Token::Number(text));
            } else {
                self.pos = j;
                self.at_line_start = false;
                self.halted = true;
                proof {
                    assert(scan_at(ln, start as int) == (TokenModel::LexError, j as int));
                    assert(self@ == step(m0).0);
                }
                return Some(Token::LexError);
            }
        }
        // Single-character tokens; `;` consumes exactly its one character,
        // like the rest.
        let tok = if c == '.' {
            Token::Period
        } else if c == '(' {
            Token::LeftParen
        } else if c == ')' {
            Token::RightParen
        } else if c == ',' {
            Token::Comma
        } else if c == ';' {
            Token::Separator
        } else if c == ':' {
            Token::Colon
        } else if c == '!' {
            Token::Yell
        } else if c == '+' || c == '-' || c == '/' || c == '*' {
            Token::BinaryOp(c)
        } else {
            Token::LexError
        };
        self.pos = start + 1;
        self.at_line_start = false;
        if matches!(tok, Token::LexError) {
            self.halted = true;
        }
        proof {
            assert(scan_at(ln, start as int) == (tok@, (start + 1) as int));
            assert(self@ == step(m0).0);
        }
        Some(tok)
    }

    /// Drains the stream: every remaining token, in order, exactly the
    /// model's [`stream`] of the state the call starts in.
    pub fn lex(&mut self) -> (tokens: Vec<Token>)
        requires
            old(self).wf(),
        ensures
            final(self).wf(),
            tokens.deep_view() == stream(old(self)@),
    {
        let mut tokens: Vec<Token> = Vec::new();
        proof {
            assert(tokens.deep_view() + stream(self@) =~= stream(old(self)@));
        }
        loop
            invariant
                self.wf(),
                tokens.deep_view() + stream(self@) == stream(old(self)@),
            ensures
                self.wf(),
                tokens.deep_view() == stream(old(self)@),
            decreases stream(self@).len(),
        {
            let ghost pre = self@;
            let ghost toks = tokens.deep_view();
            let t = self.next_token();
            match t {
                Option::Some(tok) => {
                    proof {
                        assert(stream(pre) == seq![tok@] + stream(self@));
                    }
                    tokens.push(tok);
                    proof {
                        assert(tokens.deep_view() =~= toks.push(tok@));
                        assert(toks.push(tok@) + stream(self@) =~= toks + (seq![tok@] + stream(
                            self@,
                        )));
                    }
                },
                Option::None => {
                    proof {
                        assert(stream(self@) =~= Seq::<TokenModel>::empty());
                        assert(toks + Seq::<TokenModel>::empty() =~= toks);
                    }
                    break;
                },
            }
        }
        tokens
    }
}

} // verus!
