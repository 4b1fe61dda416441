use crate::loc::Loc;
use vstd::prelude::*;
use vstd::string::StrSliceExecFns;

verus! {

/// One lexical token of the expression language.
#[derive(Clone, Copy, Debug, PartialEq, Eq, Structural)]
pub enum Token {
    LParen,
    RParen,
    Add,
    Sub,
    Mul,
    Div,
    Pow,
    Eq,
    Ne,
    Not,
    Int(u32),
    Unexpected(char),
}

/// Whitespace that is skipped without ending the current line.
pub open spec fn is_space(c: char) -> bool {
    c == ' ' || c == '\t' || c == '\r'
}

/// A decimal digit.
pub open spec fn is_digit(c: char) -> bool {
    48 <= (c as u32) && (c as u32) <= 57
}

/// The numeric value of a decimal digit character.
pub open spec fn digit_val(c: char) -> int {
    (c as u32) - 48
}

/// The state of the scanner after skipping whitespace and newlines starting
/// from position `i`: the new position, line and column.
pub open spec fn skip_ws(s: Seq<char>, i: int, line: int, col: int) -> (int, int, int)
    decreases s.len() - i,
{
    if 0 <= i < s.len() {
        if s[i] == '\n' {
            skip_ws(s, i + 1, line + 1, 1)
        } else if is_space(s[i]) {
            skip_ws(s, i + 1, line, col + 1)
        } else {
            (i, line, col)
        }
    } else {
        (i, line, col)
    }
}

/// The end of the run of decimal digits starting at position `i`.
pub open spec fn digit_run_end(s: Seq<char>, i: int) -> int
    decreases s.len() - i,
{
    if 0 <= i < s.len() && is_digit(s[i]) {
        digit_run_end(s, i + 1)
    } else {
        i
    }
}

/// The unbounded value of the decimal digits in `s[start..end)`.
pub open spec fn digits_int(s: Seq<char>, start: int, end: int) -> int
    decreases end - start,
{
    if start < end {
        digits_int(s, start, end - 1) * 10 + digit_val(s[end - 1])
    } else {
        0
    }
}

/// A literal whose digits exceed the 32-bit range saturates at `u32::MAX`.
pub open spec fn clamp_u32(v: int) -> u32 {
    if v > u32::MAX {
        u32::MAX
    } else {
        v as u32
    }
}

/// The span on line `line` from column `c1` up to column `c2`.
pub open spec fn loc_at(line: int, c1: int, c2: int) -> Loc {
    Loc {
        line_start: line as usize,
        line_end: line as usize,
        col_start: c1 as usize,
        col_end: c2 as usize,
    }
}

/// The token starting at position `i` (which must hold a character that is
/// neither whitespace nor a newline), with the state after consuming it.
pub open spec fn token_at(s: Seq<char>, i: int, line: int, col: int) -> (
    (Token, Loc),
    (int, int, int),
) {
    let c = s[i];
    if c == '(' {
        ((Token::LParen, loc_at(line, col, col + 1)), (i + 1, line, col + 1))
    } else if c == ')' {
        ((Token::RParen, loc_at(line, col, col + 1)), (i + 1, line, col + 1))
    } else if c == '+' {
        ((Token::Add, loc_at(line, col, col + 1)), (i + 1, line, col + 1))
    } else if c == '-' {
        ((Token::Sub, loc_at(line, col, col + 1)), (i + 1, line, col + 1))
    } else if c == '*' {
        ((Token::Mul, loc_at(line, col, col + 1)), (i + 1, line, col + 1))
    } else if c == '/' {
        ((Token::Div, loc_at(line, col, col + 1)), (i + 1, line, col + 1))
    } else if c == '^' {
        ((Token::Pow, loc_at(line, col, col + 1)), (i + 1, line, col + 1))
    } else if c == '=' && i + 1 < s.len() && s[i + 1] == '=' {
        ((Token::Eq, loc_at(line, col, col + 2)), (i + 2, line, col + 2))
    } else if c == '!' && i + 1 < s.len() && s[i + 1] == '=' {
        ((Token::Ne, loc_at(line, col, col + 2)), (i + 2, line, col + 2))
    } else if c == '!' {
        ((Token::Not, loc_at(line, col, col + 1)), (i + 1, line, col + 1))
    } else if is_digit(c) {
        let end = digit_run_end(s, i);
        let value = clamp_u32(digits_int(s, i, end));
        ((Token::Int(value), loc_at(line, col, col + (end - i))), (end, line, col + (end - i)))
    } else {
        ((Token::Unexpected(c), loc_at(line, col, col + 1)), (i + 1, line, col + 1))
    }
}

/// What one call of the scanner produces from the given state: `None` at the
/// end of the input, otherwise the next token with its span, together with
/// the state after it. Both include the effect of first skipping whitespace.
pub open spec fn next_token(s: Seq<char>, i: int, line: int, col: int) -> (
    Option<(Token, Loc)>,
    (int, int, int),
) {
    let (j, l, c) = skip_ws(s, i, line, col);
    if j < s.len() {
        let (tl, st) = token_at(s, j, l, c);
        (Some(tl), st)
    } else {
        (None, (j, l, c))
    }
}

/// Skipping whitespace never moves the position backwards or past the end.
pub proof fn lemma_skip_ws_bounds(s: Seq<char>, i: int, line: int, col: int)
    requires
        0 <= i <= s.len(),
    ensures
        i <= skip_ws(s, i, line, col).0 <= s.len(),
    decreases s.len() - i,
{
    if i < s.len() && s[i] == '\n' {
        lemma_skip_ws_bounds(s, i + 1, line + 1, 1);
    } else if i < s.len() && is_space(s[i]) {
        lemma_skip_ws_bounds(s, i + 1, line, col + 1);
    }
}

/// A digit run ends at or after its start, and within the input.
pub proof fn lemma_digit_run_end_bounds(s: Seq<char>, i: int)
    requires
        0 <= i <= s.len(),
    ensures
        i <= digit_run_end(s, i) <= s.len(),
    decreases s.len() - i,
{
    if i < s.len() && is_digit(s[i]) {
        lemma_digit_run_end_bounds(s, i + 1);
    }
}

/// The scanner always advances: when it returns a token, the new position
/// lies strictly beyond the old one, and never beyond the end.
pub proof fn lemma_next_token_advances(s: Seq<char>, i: int, line: int, col: int)
    requires
        0 <= i <= s.len(),
    ensures
        next_token(s, i, line, col).0 is Some ==> i < next_token(s, i, line, col).1.0 <= s.len(),
        next_token(s, i, line, col).0 is None ==> i <= next_token(s, i, line, col).1.0 <= s.len(),
{
    lemma_skip_ws_bounds(s, i, line, col);
    let (j, l, c) = skip_ws(s, i, line, col);
    if j < s.len() {
        lemma_digit_run_end_bounds(s, j);
        if is_digit(s[j]) {
            assert(digit_run_end(s, j) == digit_run_end(s, j + 1));
            lemma_digit_run_end_bounds(s, j + 1);
        }
    }
}

/// The whole token stream that the scanner produces from the given state.
pub open spec fn tokens_from(s: Seq<char>, i: int, line: int, col: int) -> Seq<(Token, Loc)>
    decreases s.len() - i,
    when 0 <= i <= s.len()
{
    let r = next_token(s, i, line, col);
    match r.0 {
        Option::None => Seq::empty(),
        Option::Some(tl) => {
            proof {
                lemma_next_token_advances(s, i, line, col);
            }
            seq![tl] + tokens_from(s, r.1.0, r.1.1, r.1.2)
        },
    }
}

/// The token stream of a whole source text.
pub open spec fn tokens_of(s: Seq<char>) -> Seq<(Token, Loc)> {
    tokens_from(s, 0, 1, 1)
}

/// The scanner's state once the whole input is consumed: the end of the
/// input, and the line and column just past the last character. Diagnostics
/// about a missing token point here.
pub open spec fn lex_end_state(s: Seq<char>, i: int, line: int, col: int) -> (int, int, int)
    decreases s.len() - i,
    when 0 <= i <= s.len()
{
    let r = next_token(s, i, line, col);
    match r.0 {
        Option::None => r.1,
        Option::Some(_) => {
            proof {
                lemma_next_token_advances(s, i, line, col);
            }
            lex_end_state(s, r.1.0, r.1.1, r.1.2)
        },
    }
}

/// The character-level scanner: it walks the source string once, producing
/// each token paired with its source span.
pub struct Lexer<'a> {
    /// The input program as a string.
    pub source: &'a str,
    /// Index of the current character in the source string.
    pub current: usize,
    /// Line number of the current character.
    pub line: usize,
    /// Column number of the current character.
    pub col: usize,
}

impl<'a> Lexer<'a> {
    /// The bookkeeping that every scanner state satisfies: the position lies
    /// within the input, and line/column stay small enough that advancing
    /// them cannot overflow.
    pub open spec fn wf(self) -> bool {
        &&& self.current <= self.source@.len()
        &&& self.source@.len() < usize::MAX
        &&& 1 <= self.line
        &&& 1 <= self.col
        &&& self.line + self.col <= self.current + 2
    }

    pub fn new(source: &'a str) -> (lexer: Lexer<'a>)
        requires
            source@.len() < usize::MAX,
        ensures
            lexer.source@ == source@,
            lexer.current == 0,
            lexer.line == 1,
            lexer.col == 1,
            lexer.wf(),
    {
        Lexer { source, current: 0, line: 1, col: 1 }
    }

    /// Return the next character without consuming it.
    fn peek_char(&self) -> (r: Option<char>)
        ensures
            r == (if self.current < self.source@.len() {
                Some(self.source@[self.current as int])
            } else {
                Option::<char>::None
            }),
    {
        if self.current < self.source.unicode_len() {
            Some(self.source.get_char(self.current))
        } else {
            None
        }
    }

    /// Return the next character and consume it.
    fn next_char(&mut self) -> (r: Option<char>)
        requires
            old(self).wf(),
        ensures
            final(self).wf(),
            final(self).source == old(self).source,
            final(self).line == old(self).line,
            r == (if old(self).current < old(self).source@.len() {
                Some(old(self).source@[old(self).current as int])
            } else {
                Option::<char>::None
            }),
            r is Some ==> final(self).current == old(self).current + 1 && final(self).col == old(
                self,
            ).col + 1,
            r is None ==> *final(self) == *old(self),
    {
        if self.current < self.source.unicode_len() {
            let c = self.source.get_char(self.current);
            self.current = self.current + 1;
            self.col = self.col + 1;
            Some(c)
        } else {
            None
        }
    }

    /// Check whether the next character is equal to the expected character.
    /// Consumes the next character if it matches.
    fn match_char(&mut self, expected: char) -> (r: bool)
        requires
            old(self).wf(),
        ensures
            final(self).wf(),
            final(self).source == old(self).source,
            final(self).line == old(self).line,
            r == (old(self).current < old(self).source@.len() && old(self).source@[old(
                self,
            ).current as int] == expected),
            r ==> final(self).current == old(self).current + 1 && final(self).col == old(self).col
                + 1,
            !r ==> *final(self) == *old(self),
    {
        match self.peek_char() {
            Some(c) => {
                if c == expected {
                    self.current = self.current + 1;
                    self.col = self.col + 1;
                    true
                } else {
                    false
                }
            },
            None => false,
        }
    }

    /// Skip over any whitespace and newlines until we reach the next character.
    fn skip_whitespace(&mut self)
        requires
            old(self).wf(),
        ensures
            final(self).wf(),
            final(self).source == old(self).source,
            final(self).current as int == skip_ws(
                old(self).source@,
                old(self).current as int,
                old(self).line as int,
                old(self).col as int,
            ).0,
            final(self).line as int == skip_ws(
                old(self).source@,
                old(self).current as int,
                old(self).line as int,
                old(self).col as int,
            ).1,
            final(self).col as int == skip_ws(
                old(self).source@,
                old(self).current as int,
                old(self).line as int,
                old(self).col as int,
            ).2,
    {
        let ghost s0 = *old(self);
        loop
            invariant
                self.wf(),
                self.source == s0.source,
                skip_ws(self.source@, self.current as int, self.line as int, self.col as int)
                    == skip_ws(s0.source@, s0.current as int, s0.line as int, s0.col as int),
            ensures
                self.wf(),
                self.source == s0.source,
                (self.current as int, self.line as int, self.col as int) == skip_ws(
                    s0.source@,
                    s0.current as int,
                    s0.line as int,
                    s0.col as int,
                ),
            decreases self.source@.len() - self.current,
        {
            match self.peek_char() {
                Some(c) => {
                    if c == ' ' || c == '\t' || c == '\r' {
                        self.current = self.current + 1;
                        self.col = self.col + 1;
                    } else if c == '\n' {
                        self.current = self.current + 1;
                        self.line = self.line + 1;
                        self.col = 1;
                    } else {
                        break;
                    }
                },
                None => {
                    break;
                },
            }
        }
    }

    /// Produce the next token with its span, or `None` at the end of the
    /// input. Behaves exactly as the spec-level scanner `next_token`.
    pub fn next(&mut self) -> (r: Option<(Token, Loc)>)
        requires
            old(self).wf(),
        ensures
            final(self).wf(),
            final(self).source == old(self).source,
            r == next_token(
                old(self).source@,
                old(self).current as int,
                old(self).line as int,
                old(self).col as int,
            ).0,
            final(self).current as int == next_token(
                old(self).source@,
                old(self).current as int,
                old(self).line as int,
                old(self).col as int,
            ).1.0,
            final(self).line as int == next_token(
                old(self).source@,
                old(self).current as int,
                old(self).line as int,
                old(self).col as int,
            ).1.1,
            final(self).col as int == next_token(
                old(self).source@,
                old(self).current as int,
                old(self).line as int,
                old(self).col as int,
            ).1.2,
    {
        self.skip_whitespace();

        let col_start: usize = self.col;
        let ghost start_state = *self;

        let c = match self.next_char() {
            Some(c) => c,
            None => {
                return None;
            },
        };

        let token: Token = if c == '(' {
            Token::LParen
        } else if c == ')' {
            Token::RParen
        } else if c == '+' {
            Token::Add
        } else if c == '-' {
            Token::Sub
        } else if c == '*' {
            Token::Mul
        } else if c == '/' {
            Token::Div
        } else if c == '^' {
            Token::Pow
        } else if c == '=' && self.match_char('=') {
            Token::Eq
        } else if c == '!' && self.match_char('=') {
            Token::Ne
        } else if c == '!' {
            Token::Not
        } else if (c as u32) >= 48 && (c as u32) <= 57 {
            // Include this initial character as well.
            let start: usize = self.current - 1;
            let ghost run_end = digit_run_end(self.source@, start as int);
            proof {
                lemma_digit_run_end_bounds(self.source@, self.current as int);
            }

            let mut value: u32 = (c as u32) - 48;
            proof {
                assert(self.source@[start as int] == c);
                assert(digits_int(self.source@, start as int, start as int) == 0);
                assert(digits_int(self.source@, start as int, start as int + 1) == digit_val(c));
            }

            loop
                invariant
                    self.wf(),
                    self.source == start_state.source,
                    start < self.current <= self.source@.len(),
                    self.line == start_state.line,
                    self.col - start_state.col == self.current - start,
                    run_end == digit_run_end(self.source@, self.current as int),
                    run_end == digit_run_end(self.source@, start as int),
                    digits_int(self.source@, start as int, self.current as int) >= 0,
                    value == clamp_u32(
                        digits_int(self.source@, start as int, self.current as int),
                    ),
                ensures
                    self.wf(),
                    self.source == start_state.source,
                    self.line == start_state.line,
                    self.col - start_state.col == self.current - start,
                    self.current as int == run_end,
                    value == clamp_u32(digits_int(self.source@, start as int, run_end)),
                decreases self.source@.len() - self.current,
            {
                match self.peek_char() {
                    Some(pc) => {
                        if (pc as u32) >= 48 && (pc as u32) <= 57 {
                            let d: u32 = (pc as u32) - 48;
                            self.current = self.current + 1;
                            self.col = self.col + 1;
                            value = match value.checked_mul(10) {
                                Some(v10) => match v10.checked_add(d) {
                                    Some(v) => v,
                                    None => u32::MAX,
                                },
                                None => u32::MAX,
                            };
                        } else {
                            break;
                        }
                    },
                    None => {
                        break;
                    },
                }
            }
            Token::Int(value)
        } else {
            Token::Unexpected(c)
        };

        let col_end: usize = self.col;
        let loc = Loc::new(self.line, col_start, col_end);
        Some((token, loc))
    }
}

} // verus!
