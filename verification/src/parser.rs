use crate::ast::Assoc;
use crate::ast::Binary;
use crate::ast::Bop;
use crate::ast::DefaultOperator;
use crate::ast::Expr;
use crate::ast::Num;
use crate::ast::Operator;
use crate::ast::Unary;
use crate::ast::Uop;
use crate::lexer::lemma_next_token_advances;
use crate::lexer::lex_end_state;
use crate::lexer::Lexer;
use crate::lexer::loc_at;
use crate::lexer::Token;
use crate::lexer::tokens_from;
use crate::loc::Loc;
use vstd::prelude::*;

verus! {

/// Why the parser rejected the token stream. Every failure is terminal: no
/// partial tree is returned and nothing is recovered.
#[derive(Clone, Copy, Debug, PartialEq, Eq, Structural)]
pub enum ParseError {
    /// A primary expression was required, but the token fits no primary form.
    NotAnExpr(Token, Loc),
    /// Parenthesis nesting is broken: the span of the unmatched opening
    /// parenthesis, and the span of the offending token found instead of the
    /// closing one.
    Unbalanced(Loc, Loc),
    /// A chain of equal-precedence non-associative operators is ambiguous.
    NonAssoc,
    /// The token stream ran out in the middle of an expression.
    UnexpectedEof,
}

/// Whether a candidate operator with group `(p2, a2)` binds ahead of the
/// currently active minimum binding `(p1, a1)`. Two non-associative groups
/// chained together are an error; a right-to-left candidate continues on
/// equal precedence, every other candidate only on strictly higher
/// precedence.
pub open spec fn spec_precedes(p1: int, a1: Assoc, p2: int, a2: Assoc) -> Result<
    bool,
    ParseError,
> {
    match (a1, a2) {
        (Assoc::NonAssoc, Assoc::NonAssoc) => Err(ParseError::NonAssoc),
        (_, Assoc::RightToLeft) => Ok(p1 <= p2),
        _ => Ok(p1 < p2),
    }
}

/// What looking at the next token decides for the climbing loop: `Ok(None)`
/// to stop (no token, no binary operator, or one that does not precede),
/// `Ok(Some(..))` to consume the operator and continue, or the
/// non-associativity error.
pub open spec fn spec_parse_bop(
    tokens: Seq<(Token, Loc)>,
    pos: int,
    min_prec: int,
    min_assoc: Assoc,
) -> Result<Option<(Bop, Loc)>, ParseError> {
    if 0 <= pos < tokens.len() {
        match Bop::spec_try_from(tokens[pos].0) {
            None => Ok(None),
            Some(op) => match spec_precedes(
                min_prec,
                min_assoc,
                op.spec_precedence() as int,
                op.spec_associativity(),
            ) {
                Err(e) => Err(e),
                Ok(true) => Ok(Some((op, tokens[pos].1))),
                Ok(false) => Ok(None),
            },
        }
    } else {
        Ok(None)
    }
}

/// Positions handed onward by the spec parser, kept inside `[lo, len]` so
/// that the recursion visibly terminates; the parser's results always lie in
/// that range, so the bound never actually changes a value.
pub open spec fn clip_pos(len: int, lo: int, p: int) -> int {
    if p < lo {
        lo
    } else if p > len {
        len
    } else {
        p
    }
}

/// The spec-level parser: what parsing at position `pos` with minimum
/// binding `(min_prec, min_assoc)` returns — the tree, the span it covers,
/// and the position after it — or the failure.
pub open spec fn spec_parse(
    tokens: Seq<(Token, Loc)>,
    eof: Loc,
    pos: int,
    min_prec: int,
    min_assoc: Assoc,
) -> Result<(Expr, Loc, int), ParseError>
    decreases tokens.len() - pos, 3int,
    when 0 <= pos <= tokens.len()
{
    match spec_parse_primary(tokens, eof, pos) {
        Err(e) => Err(e),
        Ok((left, loc, p1)) => spec_parse_loop(
            tokens,
            eof,
            clip_pos(tokens.len() as int, pos, p1),
            min_prec,
            min_assoc,
            left,
            loc,
        ),
    }
}

/// One primary expression: a literal, a parenthesized expression, or a unary
/// application; anything else is the failure the token calls for.
pub open spec fn spec_parse_primary(tokens: Seq<(Token, Loc)>, eof: Loc, pos: int) -> Result<
    (Expr, Loc, int),
    ParseError,
>
    decreases tokens.len() - pos, 2int,
    when 0 <= pos <= tokens.len()
{
    if pos >= tokens.len() {
        Err(ParseError::UnexpectedEof)
    } else {
        let (token, loc) = tokens[pos];
        match token {
            Token::Int(num) => Ok((Expr::Num(Num { num, loc }), loc, pos + 1)),
            Token::LParen => match spec_parse(tokens, eof, pos + 1, 0, Assoc::LeftToRight) {
                Err(e) => Err(e),
                Ok((inner, _inner_loc, p2)) => {
                    if 0 <= p2 < tokens.len() {
                        let (token2, rloc) = tokens[p2];
                        if token2 == Token::RParen {
                            Ok((inner, loc.spec_merge(rloc), p2 + 1))
                        } else {
                            Err(ParseError::Unbalanced(loc, rloc))
                        }
                    } else {
                        // The closing parenthesis is missing altogether: report
                        // the opening span against the end of the input.
                        Err(ParseError::Unbalanced(loc, eof))
                    }
                },
            },
            _ => match Uop::spec_from_token(token) {
                None => Err(ParseError::NotAnExpr(token, loc)),
                Some(op) => match spec_parse_unary(tokens, eof, pos + 1, op, loc) {
                    Err(e) => Err(e),
                    Ok((unary, uloc, p2)) => Ok((Expr::Unary(unary), uloc, p2)),
                },
            },
        }
    }
}

/// A unary application: the operand is parsed at the unary binding, which is
/// strictly tighter than every binary operator, and the node's span runs
/// from the operator token through the operand.
pub open spec fn spec_parse_unary(
    tokens: Seq<(Token, Loc)>,
    eof: Loc,
    pos: int,
    op: Uop,
    loc: Loc,
) -> Result<
    (Unary, Loc, int),
    ParseError,
>
    decreases tokens.len() - pos, 4int,
    when 0 <= pos <= tokens.len()
{
    match spec_parse(tokens, eof, pos, 255, Assoc::LeftToRight) {
        Err(e) => Err(e),
        Ok((operand, rloc, p2)) => {
            let merged = loc.spec_merge(rloc);
            Ok((Unary { r: Box::new(operand), op, loc: merged }, merged, p2))
        },
    }
}

/// The climbing loop: while the next token is a binary operator that
/// precedes the minimum binding, consume it, parse the right-hand side at
/// that operator's own group, and fold both sides into a binary node whose
/// span merges the two operand spans.
pub open spec fn spec_parse_loop(
    tokens: Seq<(Token, Loc)>,
    eof: Loc,
    pos: int,
    min_prec: int,
    min_assoc: Assoc,
    left: Expr,
    loc: Loc,
) -> Result<(Expr, Loc, int), ParseError>
    decreases tokens.len() - pos, 0int,
    when 0 <= pos <= tokens.len()
{
    match spec_parse_bop(tokens, pos, min_prec, min_assoc) {
        Err(e) => Err(e),
        Ok(None) => Ok((left, loc, pos)),
        Ok(Some((op, _op_loc))) => match spec_parse(
            tokens,
            eof,
            pos + 1,
            op.spec_precedence() as int,
            op.spec_associativity(),
        ) {
            Err(e) => Err(e),
            Ok((right, rloc, p2)) => {
                let merged = loc.spec_merge(rloc);
                let node = Expr::Binary(
                    Binary { l: Box::new(left), r: Box::new(right), op, loc: merged },
                );
                spec_parse_loop(
                    tokens,
                    eof,
                    clip_pos(tokens.len() as int, pos + 1, p2),
                    min_prec,
                    min_assoc,
                    node,
                    merged,
                )
            },
        },
    }
}

/// Whether `l` precedes `r` under the precedes rule, or the
/// non-associativity error.
fn precedes<L: Operator, R: Operator>(l: L, r: R) -> (res: Result<bool, ParseError>)
    ensures
        res == spec_precedes(
            l.spec_precedence() as int,
            l.spec_associativity(),
            r.spec_precedence() as int,
            r.spec_associativity(),
        ),
{
    match (l.associativity(), r.associativity()) {
        (Assoc::NonAssoc, Assoc::NonAssoc) => Err(ParseError::NonAssoc),
        (_, Assoc::RightToLeft) => Ok(l.precedence() <= r.precedence()),
        _ => Ok(l.precedence() < r.precedence()),
    }
}

/// The precedence-climbing parser. It scans the whole token stream up front
/// and then walks it with one token of lookahead.
pub struct Parser {
    pub tokens: Vec<(Token, Loc)>,
    pub pos: usize,
    /// Where the input ends: the span that diagnostics about a missing
    /// token point at.
    pub eof: Loc,
}

impl Parser {
    /// The cursor never leaves the token stream.
    pub open spec fn wf(self) -> bool {
        self.pos <= self.tokens@.len()
    }

    /// Drain the scanner; the resulting parser holds exactly the token
    /// stream that the scanner produces from its current state.
    pub fn new<'a>(lexer: Lexer<'a>) -> (parser: Parser)
        requires
            lexer.wf(),
        ensures
            parser.tokens@ == tokens_from(
                lexer.source@,
                lexer.current as int,
                lexer.line as int,
                lexer.col as int,
            ),
            parser.pos == 0,
            ({
                let end = lex_end_state(
                    lexer.source@,
                    lexer.current as int,
                    lexer.line as int,
                    lexer.col as int,
                );
                parser.eof == loc_at(end.1, end.2, end.2)
            }),
            parser.wf(),
    {
        let mut lexer = lexer;
        let mut tokens: Vec<(Token, Loc)> = Vec::new();
        let ghost l0 = lexer;
        loop
            invariant
                lexer.wf(),
                lexer.source == l0.source,
                tokens_from(l0.source@, l0.current as int, l0.line as int, l0.col as int)
                    == tokens@ + tokens_from(
                    lexer.source@,
                    lexer.current as int,
                    lexer.line as int,
                    lexer.col as int,
                ),
                lex_end_state(l0.source@, l0.current as int, l0.line as int, l0.col as int)
                    == lex_end_state(
                    lexer.source@,
                    lexer.current as int,
                    lexer.line as int,
                    lexer.col as int,
                ),
            ensures
                tokens@ == tokens_from(l0.source@, l0.current as int, l0.line as int, l0.col as int),
                lex_end_state(l0.source@, l0.current as int, l0.line as int, l0.col as int) == (
                    lexer.current as int,
                    lexer.line as int,
                    lexer.col as int,
                ),
            decreases lexer.source@.len() - lexer.current,
        {
            let ghost pre = lexer;
            match lexer.next() {
                Some(tl) => {
                    proof {
                        lemma_next_token_advances(
                            pre.source@,
                            pre.current as int,
                            pre.line as int,
                            pre.col as int,
                        );
                        assert(tokens_from(
                            pre.source@,
                            pre.current as int,
                            pre.line as int,
                            pre.col as int,
                        ) == seq![tl] + tokens_from(
                            pre.source@,
                            lexer.current as int,
                            lexer.line as int,
                            lexer.col as int,
                        ));
                        assert((tokens@ + seq![tl]) + tokens_from(
                            pre.source@,
                            lexer.current as int,
                            lexer.line as int,
                            lexer.col as int,
                        ) =~= tokens@ + (seq![tl] + tokens_from(
                            pre.source@,
                            lexer.current as int,
                            lexer.line as int,
                            lexer.col as int,
                        )));
                    }
                    tokens.push(tl);
                },
                None => {
                    proof {
                        assert(tokens_from(
                            pre.source@,
                            pre.current as int,
                            pre.line as int,
                            pre.col as int,
                        ) =~= Seq::<(Token, Loc)>::empty());
                        assert(tokens@ + Seq::<(Token, Loc)>::empty() =~= tokens@);
                    }
                    break;
                },
            }
        }
        let eof = Loc::new(lexer.line, lexer.col, lexer.col);
        Parser { tokens, pos: 0, eof }
    }

    /// Parse one whole expression starting at the weakest binding.
    pub fn parse_expr(&mut self) -> (r: Result<(Expr, Loc), ParseError>)
        requires
            old(self).wf(),
        ensures
            final(self).wf(),
            final(self).tokens@ == old(self).tokens@,
            final(self).eof == old(self).eof,
            old(self).pos <= final(self).pos,
            ({
                let sp = spec_parse(
                    old(self).tokens@,
                    old(self).eof,
                    old(self).pos as int,
                    0,
                    Assoc::LeftToRight,
                );
                match r {
                    Ok((e, l)) => sp == Ok::<(Expr, Loc, int), ParseError>(
                        (e, l, final(self).pos as int),
                    ),
                    Err(pe) => sp == Err::<(Expr, Loc, int), ParseError>(pe),
                }
            }),
        decreases old(self).tokens@.len() - old(self).pos, 5int,
    {
        self.parse_binary(DefaultOperator())
    }

    /// Parse one expression whose operators must all precede the binding of
    /// `previous`: the core of precedence climbing.
    pub fn parse_binary<P: Operator>(&mut self, previous: P) -> (r: Result<
        (Expr, Loc),
        ParseError,
    >)
        requires
            old(self).wf(),
        ensures
            final(self).wf(),
            final(self).tokens@ == old(self).tokens@,
            final(self).eof == old(self).eof,
            old(self).pos <= final(self).pos,
            ({
                let sp = spec_parse(
                    old(self).tokens@,
                    old(self).eof,
                    old(self).pos as int,
                    previous.spec_precedence() as int,
                    previous.spec_associativity(),
                );
                match r {
                    Ok((e, l)) => sp == Ok::<(Expr, Loc, int), ParseError>(
                        (e, l, final(self).pos as int),
                    ),
                    Err(pe) => sp == Err::<(Expr, Loc, int), ParseError>(pe),
                }
            }),
        decreases old(self).tokens@.len() - old(self).pos, 3int,
    {
        let ghost t = old(self).tokens@;
        let ghost eof0 = old(self).eof;
        let ghost pos0 = old(self).pos as int;
        let ghost minp = previous.spec_precedence() as int;
        let ghost mina = previous.spec_associativity();

        let (token, tloc) = match self.next() {
            Ok(tl) => tl,
            Err(e) => {
                return Err(e);
            },
        };

        let mut loc = tloc;
        let mut left: Expr = match token {
            Token::Int(num) => Expr::Num(Num { num, loc }),
            Token::LParen => {
                let inner = match self.parse_expr() {
                    Ok((e, _)) => e,
                    Err(e) => {
                        return Err(e);
                    },
                };
                let (token2, rloc) = match self.next() {
                    Ok(tl) => tl,
                    Err(_) => {
                        // The input ended before the closing parenthesis.
                        return Err(ParseError::Unbalanced(loc, self.eof));
                    },
                };
                match token2 {
                    Token::RParen => {},
                    _ => {
                        // Unbalanced parenthesis; expected a `)` got `token2`
                        return Err(ParseError::Unbalanced(loc, rloc));
                    },
                }
                loc = loc.merge(rloc);
                inner
            },
            _ => {
                let op = match Uop::from_token(token) {
                    Some(op) => op,
                    None => {
                        return Err(ParseError::NotAnExpr(token, loc));
                    },
                };
                let (unary, rloc) = match self.parse_unary(op, loc) {
                    Ok(x) => x,
                    Err(e) => {
                        return Err(e);
                    },
                };
                loc = loc.merge(rloc);
                Expr::Unary(unary)
            },
        };

        proof {
            assert(spec_parse_primary(t, eof0, pos0) == Ok::<(Expr, Loc, int), ParseError>(
                (left, loc, self.pos as int),
            ));
            assert(spec_parse(t, eof0, pos0, minp, mina) == spec_parse_loop(
                t,
                eof0,
                self.pos as int,
                minp,
                mina,
                left,
                loc,
            ));
        }

        loop
            invariant
                self.wf(),
                t == old(self).tokens@,
                eof0 == old(self).eof,
                pos0 == old(self).pos as int,
                self.tokens@ == t,
                self.eof == eof0,
                pos0 < self.pos <= t.len(),
                minp == previous.spec_precedence() as int,
                mina == previous.spec_associativity(),
                spec_parse(t, eof0, pos0, minp, mina) == spec_parse_loop(
                    t,
                    eof0,
                    self.pos as int,
                    minp,
                    mina,
                    left,
                    loc,
                ),
            ensures
                self.wf(),
                self.tokens@ == t,
                self.eof == eof0,
                pos0 < self.pos <= t.len(),
                spec_parse(t, eof0, pos0, minp, mina) == Ok::<(Expr, Loc, int), ParseError>(
                    (left, loc, self.pos as int),
                ),
            decreases t.len() - self.pos,
        {
            let (op, _op_loc) = match self.parse_bop(previous) {
                Ok(Some(x)) => x,
                Ok(None) => {
                    break;
                },
                Err(e) => {
                    return Err(e);
                },
            };
            let (right, rloc) = match self.parse_binary(op) {
                Ok(x) => x,
                Err(e) => {
                    return Err(e);
                },
            };
            loc = loc.merge(rloc);
            let node = Expr::Binary(Binary { l: Box::new(left), r: Box::new(right), op, loc });
            left = node;
        }

        Ok((left, loc))
    }

    /// Parse the operand of a unary operator and wrap it, spanning the
    /// operator token (`loc`) through the operand.
    fn parse_unary(&mut self, op: Uop, loc: Loc) -> (r: Result<(Unary, Loc), ParseError>)
        requires
            old(self).wf(),
        ensures
            final(self).wf(),
            final(self).tokens@ == old(self).tokens@,
            final(self).eof == old(self).eof,
            old(self).pos <= final(self).pos,
            ({
                let sp = spec_parse_unary(
                    old(self).tokens@,
                    old(self).eof,
                    old(self).pos as int,
                    op,
                    loc,
                );
                match r {
                    Ok((u, l2)) => sp == Ok::<(Unary, Loc, int), ParseError>(
                        (u, l2, final(self).pos as int),
                    ),
                    Err(pe) => sp == Err::<(Unary, Loc, int), ParseError>(pe),
                }
            }),
        decreases old(self).tokens@.len() - old(self).pos, 4int,
    {
        let (operand, rloc) = match self.parse_binary(op) {
            Ok(x) => x,
            Err(e) => {
                return Err(e);
            },
        };

        let merged = loc.merge(rloc);
        let unary = Unary { op, r: Box::new(operand), loc: merged };
        Ok((unary, merged))
    }

    /// Look at the next token; consume it only when it is a binary operator
    /// that precedes the minimum binding of `previous`.
    fn parse_bop<P: Operator>(&mut self, previous: P) -> (r: Result<
        Option<(Bop, Loc)>,
        ParseError,
    >)
        requires
            old(self).wf(),
        ensures
            final(self).wf(),
            final(self).tokens == old(self).tokens,
            final(self).eof == old(self).eof,
            r == spec_parse_bop(
                old(self).tokens@,
                old(self).pos as int,
                previous.spec_precedence() as int,
                previous.spec_associativity(),
            ),
            r matches Ok(Some(_)) ==> final(self).pos == old(self).pos + 1,
            !(r matches Ok(Some(_))) ==> *final(self) == *old(self),
    {
        if self.pos < self.tokens.len() {
            let (token, loc) = self.tokens[self.pos];
            match Bop::try_from(token) {
                Some(op) => match precedes(previous, op) {
                    Ok(true) => {
                        // Consume the token
                        self.pos = self.pos + 1;
                        Ok(Some((op, loc)))
                    },
                    Ok(false) => Ok(None),
                    Err(e) => Err(e),
                },
                None => Ok(None),
            }
        } else {
            Ok(None)
        }
    }

    /// The next token, or the end-of-input failure.
    fn next(&mut self) -> (r: Result<(Token, Loc), ParseError>)
        requires
            old(self).wf(),
        ensures
            final(self).wf(),
            final(self).tokens == old(self).tokens,
            final(self).eof == old(self).eof,
            old(self).pos < old(self).tokens@.len() ==> r == Ok::<(Token, Loc), ParseError>(
                old(self).tokens@[old(self).pos as int],
            ) && final(self).pos == old(self).pos + 1,
            old(self).pos >= old(self).tokens@.len() ==> r == Err::<(Token, Loc), ParseError>(
                ParseError::UnexpectedEof,
            ) && *final(self) == *old(self),
    {
        if self.pos < self.tokens.len() {
            let tl = self.tokens[self.pos];
            self.pos = self.pos + 1;
            Ok(tl)
        } else {
            Err(ParseError::UnexpectedEof)
        }
    }
}

} // verus!
