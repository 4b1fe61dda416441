use crate::ast::Assoc;
use crate::ast::Binary;
use crate::ast::Bop;
use crate::ast::dec_digits;
use crate::ast::digit_char;
use crate::ast::Expr;
use crate::ast::Num;
use crate::ast::Operator;
use crate::ast::Unary;
use crate::ast::Uop;
use crate::lexer::digit_run_end;
use crate::lexer::digit_val;
use crate::lexer::digits_int;
use crate::lexer::is_digit;
use crate::lexer::is_space;
use crate::lexer::loc_at;
use crate::lexer::next_token;
use crate::lexer::skip_ws;
use crate::lexer::Token;
use crate::lexer::token_at;
use crate::lexer::tokens_from;
use crate::lexer::tokens_of;
use crate::loc::Loc;
use crate::parser::clip_pos;
use crate::parser::ParseError;
use crate::parser::spec_parse;
use crate::parser::spec_parse_bop;
use crate::parser::spec_parse_loop;
use crate::parser::spec_parse_primary;
use crate::parser::spec_parse_unary;
use crate::parser::spec_precedes;
use vstd::prelude::*;

verus! {

/// A digit's printed character is a digit character, and scanning it gives
/// back the digit.
proof fn lemma_digit_char_props(d: int)
    requires
        0 <= d <= 9,
    ensures
        is_digit(digit_char(d)),
        digit_val(digit_char(d)) == d,
{
}

/// Every character of a decimal text is a digit, and there is at least one.
pub proof fn lemma_dec_digits_wf(v: int)
    requires
        v >= 0,
    ensures
        dec_digits(v).len() >= 1,
        forall|k: int| 0 <= k < dec_digits(v).len() ==> is_digit(#[trigger] dec_digits(v)[k]),
    decreases v,
{
    if v < 10 {
        lemma_digit_char_props(v);
        assert(dec_digits(v) =~= seq![digit_char(v)]);
    } else {
        lemma_dec_digits_wf(v / 10);
        lemma_digit_char_props(v % 10);
        assert forall|k: int| 0 <= k < dec_digits(v).len() implies is_digit(
            #[trigger] dec_digits(v)[k],
        ) by {
            if k < dec_digits(v / 10).len() {
                assert(dec_digits(v)[k] == dec_digits(v / 10)[k]);
            } else {
                assert(dec_digits(v)[k] == digit_char(v % 10));
            }
        }
    }
}

/// The value of a digit region depends only on the characters in it.
proof fn lemma_digits_int_shift(s1: Seq<char>, off: int, s2: Seq<char>, start: int, end: int)
    requires
        forall|k: int| start <= k < end ==> s1[off + k] == #[trigger] s2[k],
    ensures
        digits_int(s1, off + start, off + end) == digits_int(s2, start, end),
    decreases end - start,
{
    if start < end {
        lemma_digits_int_shift(s1, off, s2, start, end - 1);
        assert(s1[off + (end - 1)] == s2[end - 1]);
    }
}

/// A run of digits ended by a non-digit (or by the end of the input) is
/// exactly what the scanner consumes for a literal.
pub proof fn lemma_digit_run(s: Seq<char>, i: int, j: int)
    requires
        0 <= i <= j <= s.len(),
        forall|k: int| i <= k < j ==> is_digit(#[trigger] s[k]),
        j == s.len() || !is_digit(s[j]),
    ensures
        digit_run_end(s, i) == j,
    decreases j - i,
{
    if i < j {
        lemma_digit_run(s, i + 1, j);
    }
}

/// Scanning the decimal text of a value gives the value back: printing and
/// reading decimal digits are inverse.
pub proof fn lemma_dec_digits_value(v: int)
    requires
        v >= 0,
    ensures
        digits_int(dec_digits(v), 0, dec_digits(v).len() as int) == v,
    decreases v,
{
    let s = dec_digits(v);
    if v < 10 {
        lemma_digit_char_props(v);
        assert(digits_int(s, 0, 0) == 0);
        assert(s[0] == digit_char(v));
    } else {
        lemma_dec_digits_value(v / 10);
        lemma_digit_char_props(v % 10);
        let s1 = dec_digits(v / 10);
        let n = s.len() as int;
        assert(s == s1 + seq![digit_char(v % 10)]);
        assert(s[n - 1] == digit_char(v % 10));
        assert forall|k: int| 0 <= k < s1.len() implies s[0 + k] == #[trigger] s1[k] by {}
        lemma_digits_int_shift(s, 0, s1, 0, s1.len() as int);
        assert(digits_int(s, 0, n - 1) == v / 10);
        assert(digits_int(s, 0, n) == (v / 10) * 10 + digit_val(s[n - 1]));
    }
}

/// Parsing a token stream that holds exactly one integer literal yields the
/// literal node, carrying exactly that token's span.
pub proof fn lemma_parse_single_literal(tokens: Seq<(Token, Loc)>, eof: Loc, v: u32, loc: Loc)
    requires
        tokens =~= seq![(Token::Int(v), loc)],
    ensures
        spec_parse(tokens, eof, 0, 0, Assoc::LeftToRight) == Ok::<(Expr, Loc, int), ParseError>(
            (Expr::Num(Num { num: v, loc }), loc, 1),
        ),
{
    assert(tokens[0] == (Token::Int(v), loc));
}

/// Two trees have the same shape: the same operators applied the same way
/// to the same literal values; spans are free to differ.
pub open spec fn same_shape(a: Expr, b: Expr) -> bool
    decreases a,
{
    match (a, b) {
        (Expr::Num(x), Expr::Num(y)) => x.num == y.num,
        (Expr::Unary(x), Expr::Unary(y)) => x.op == y.op && same_shape(*x.r, *y.r),
        (Expr::Binary(x), Expr::Binary(y)) => x.op == y.op && same_shape(*x.l, *y.l) && same_shape(
            *x.r,
            *y.r,
        ),
        _ => false,
    }
}

/// The token that prints as a binary operator's symbol.
pub open spec fn bop_token(op: Bop) -> Token {
    match op {
        Bop::Add => Token::Add,
        Bop::Sub => Token::Sub,
        Bop::Mul => Token::Mul,
        Bop::Div => Token::Div,
        Bop::Pow => Token::Pow,
        Bop::Eq => Token::Eq,
        Bop::Ne => Token::Ne,
    }
}

/// The token that prints as a unary operator's symbol.
pub open spec fn uop_token(op: Uop) -> Token {
    match op {
        Uop::Neg => Token::Sub,
        Uop::Not => Token::Not,
    }
}

/// The token stream that the printed form of a tree spells out.
pub open spec fn print_tokens(e: Expr) -> Seq<Token>
    decreases e,
{
    match e {
        Expr::Num(num) => seq![Token::Int(num.num)],
        Expr::Unary(unary) => seq![uop_token(unary.op)] + print_tokens(*unary.r),
        Expr::Binary(binary) => seq![Token::LParen] + print_tokens(*binary.l) + seq![
            bop_token(binary.op),
        ] + print_tokens(*binary.r) + seq![Token::RParen],
    }
}

/// The token stream carries the given tokens starting at `pos`, whatever
/// their spans.
pub open spec fn tokens_match_at(tokens: Seq<(Token, Loc)>, pos: int, ts: Seq<Token>) -> bool {
    &&& 0 <= pos
    &&& pos + ts.len() <= tokens.len()
    &&& forall|k: int| 0 <= k < ts.len() ==> tokens[pos + k].0 == #[trigger] ts[k]
}

/// The climbing loop, run with minimum binding `(min_prec, min_assoc)`,
/// stops when it looks at position `pos`: there is no token there, the token
/// is no binary operator, or its group does not precede the binding.
pub open spec fn loop_stops(
    tokens: Seq<(Token, Loc)>,
    pos: int,
    min_prec: int,
    min_assoc: Assoc,
) -> bool {
    pos >= tokens.len() || (match Bop::spec_try_from(tokens[pos].0) {
        None => true,
        Some(op) => spec_precedes(
            min_prec,
            min_assoc,
            op.spec_precedence() as int,
            op.spec_associativity(),
        ) == Ok::<bool, ParseError>(false),
    })
}

/// Every binary operator's precedence lies between the equality operators'
/// and the power operator's, strictly below the unary binding.
proof fn lemma_bop_precedence_range(op: Bop)
    ensures
        2 <= op.spec_precedence() <= 5,
        Bop::spec_try_from(bop_token(op)) == Some(op),
{
}

/// A primary parse of the printed form of a tree consumes exactly its
/// tokens and rebuilds its shape, whatever tokens follow.
pub proof fn lemma_reparse_primary(tokens: Seq<(Token, Loc)>, eof: Loc, pos: int, e: Expr)
    requires
        tokens_match_at(tokens, pos, print_tokens(e)),
    ensures
        ({
            let r = spec_parse_primary(tokens, eof, pos);
            r matches Ok((e2, loc2, p2)) && same_shape(e2, e) && p2 == pos + print_tokens(e).len()
        }),
    decreases e.size(), 0nat,
{
    let ts = print_tokens(e);
    match e {
        Expr::Num(num) => {
            assert(tokens[pos].0 == ts[0]);
        },
        Expr::Unary(unary) => {
            let ts_r = print_tokens(*unary.r);
            assert(tokens[pos].0 == ts[0]);
            assert(ts[0] == uop_token(unary.op));
            assert forall|k: int| 0 <= k < ts_r.len() implies tokens[(pos + 1) + k].0
                == #[trigger] ts_r[k] by {
                assert(ts[1 + k] == ts_r[k]);
                assert(tokens[pos + (1 + k)].0 == ts[1 + k]);
            }
            assert(tokens_match_at(tokens, pos + 1, ts_r));
            let after: int = pos + 1 + ts_r.len();
            assert(loop_stops(tokens, after, 255, Assoc::LeftToRight)) by {
                if after < tokens.len() {
                    match Bop::spec_try_from(tokens[after].0) {
                        None => {},
                        Some(op2) => {
                            lemma_bop_precedence_range(op2);
                        },
                    }
                }
            }
            lemma_reparse_at(tokens, eof, pos + 1, *unary.r, 255, Assoc::LeftToRight);
            match spec_parse(tokens, eof, pos + 1, 255, Assoc::LeftToRight) {
                Ok((operand, rloc, p2)) => {
                    assert(p2 == after);
                    assert(same_shape(operand, *unary.r));
                },
                Err(_) => {
                    assert(false);
                },
            }
        },
        Expr::Binary(binary) => {
            let ts_l = print_tokens(*binary.l);
            let ts_r = print_tokens(*binary.r);
            let n_l = ts_l.len() as int;
            let n_r = ts_r.len() as int;
            assert(ts.len() == 3 + n_l + n_r);
            assert(tokens[pos].0 == ts[0]);
            assert(ts[0] == Token::LParen);

            assert forall|k: int| 0 <= k < n_l implies tokens[(pos + 1) + k].0
                == #[trigger] ts_l[k] by {
                assert(ts[1 + k] == ts_l[k]);
                assert(tokens[pos + (1 + k)].0 == ts[1 + k]);
            }
            assert(tokens_match_at(tokens, pos + 1, ts_l));
            let pl = pos + 1 + n_l;
            assert(ts[1 + n_l] == bop_token(binary.op));
            assert(tokens[pl].0 == bop_token(binary.op)) by {
                assert(tokens[pos + (1 + n_l)].0 == ts[1 + n_l]);
            }
            assert forall|k: int| 0 <= k < n_r implies tokens[(pl + 1) + k].0
                == #[trigger] ts_r[k] by {
                assert(ts[2 + n_l + k] == ts_r[k]);
                assert(tokens[pos + (2 + n_l + k)].0 == ts[2 + n_l + k]);
            }
            assert(tokens_match_at(tokens, pl + 1, ts_r));
            let pr = pl + 1 + n_r;
            assert(ts[2 + n_l + n_r] == Token::RParen);
            assert(tokens[pr].0 == Token::RParen) by {
                assert(tokens[pos + (2 + n_l + n_r)].0 == ts[2 + n_l + n_r]);
            }

            lemma_bop_precedence_range(binary.op);
            lemma_reparse_primary(tokens, eof, pos + 1, *binary.l);
            match spec_parse_primary(tokens, eof, pos + 1) {
                Ok((l2, lloc, pl2)) => {
                    assert(pl2 == pl);
                    assert(clip_pos(tokens.len() as int, pos + 1, pl) == pl);
                    assert(spec_parse_bop(tokens, pl, 0, Assoc::LeftToRight) == Ok::<
                        Option<(Bop, Loc)>,
                        ParseError,
                    >(Some((binary.op, tokens[pl].1))));
                    assert(loop_stops(
                        tokens,
                        pr,
                        binary.op.spec_precedence() as int,
                        binary.op.spec_associativity(),
                    ));
                    lemma_reparse_at(
                        tokens,
                        eof,
                        pl + 1,
                        *binary.r,
                        binary.op.spec_precedence() as int,
                        binary.op.spec_associativity(),
                    );
                    match spec_parse(
                        tokens,
                        eof,
                        pl + 1,
                        binary.op.spec_precedence() as int,
                        binary.op.spec_associativity(),
                    ) {
                        Ok((r2, rloc, pr2)) => {
                            assert(pr2 == pr);
                            let merged = lloc.spec_merge(rloc);
                            let node = Expr::Binary(
                                Binary {
                                    l: Box::new(l2),
                                    r: Box::new(r2),
                                    op: binary.op,
                                    loc: merged,
                                },
                            );
                            assert(clip_pos(tokens.len() as int, pl + 1, pr) == pr);
                            assert(spec_parse_bop(tokens, pr, 0, Assoc::LeftToRight) == Ok::<
                                Option<(Bop, Loc)>,
                                ParseError,
                            >(None));
                            assert(spec_parse_loop(
                                tokens,
                                eof,
                                pr,
                                0,
                                Assoc::LeftToRight,
                                node,
                                merged,
                            ) == Ok::<(Expr, Loc, int), ParseError>((node, merged, pr)));
                            assert(spec_parse(tokens, eof, pos + 1, 0, Assoc::LeftToRight) == Ok::<
                                (Expr, Loc, int),
                                ParseError,
                            >((node, merged, pr)));
                            assert(same_shape(node, e));
                        },
                        Err(_) => {
                            assert(false);
                        },
                    }
                },
                Err(_) => {
                    assert(false);
                },
            }
        },
    }
}

/// Parsing the printed form of a tree under a binding that the following
/// token does not beat consumes exactly the printed tokens and rebuilds the
/// tree's shape.
pub proof fn lemma_reparse_at(
    tokens: Seq<(Token, Loc)>,
    eof: Loc,
    pos: int,
    e: Expr,
    min_prec: int,
    min_assoc: Assoc,
)
    requires
        tokens_match_at(tokens, pos, print_tokens(e)),
        loop_stops(tokens, pos + print_tokens(e).len(), min_prec, min_assoc),
    ensures
        ({
            let r = spec_parse(tokens, eof, pos, min_prec, min_assoc);
            r matches Ok((e2, loc2, p2)) && same_shape(e2, e) && p2 == pos + print_tokens(e).len()
        }),
    decreases e.size(), 1nat,
{
    lemma_reparse_primary(tokens, eof, pos, e);
    let after = pos + print_tokens(e).len() as int;
    match spec_parse_primary(tokens, eof, pos) {
        Ok((e2, loc2, p1)) => {
            assert(p1 == after);
            assert(clip_pos(tokens.len() as int, pos, p1) == p1);
            assert(spec_parse_bop(tokens, after, min_prec, min_assoc) == Ok::<
                Option<(Bop, Loc)>,
                ParseError,
            >(None));
        },
        Err(_) => {
            assert(false);
        },
    }
}

/// Re-parsing the printed form of a tree yields a tree of the same shape:
/// the same operators and the same literal values; spans may differ. Stated
/// over every token stream that spells the printed form, whatever spans its
/// tokens carry.
pub proof fn lemma_reparse_print_tokens(tokens: Seq<(Token, Loc)>, eof: Loc, e: Expr)
    requires
        tokens.len() == print_tokens(e).len(),
        forall|k: int| 0 <= k < tokens.len() ==> tokens[k].0 == #[trigger] print_tokens(e)[k],
    ensures
        ({
            let r = spec_parse(tokens, eof, 0, 0, Assoc::LeftToRight);
            r matches Ok((e2, loc2, p2)) && same_shape(e2, e) && p2 == tokens.len()
        }),
{
    assert forall|k: int| 0 <= k < print_tokens(e).len() implies tokens[0 + k].0
        == #[trigger] print_tokens(e)[k] by {}
    lemma_reparse_at(tokens, eof, 0, e, 0, Assoc::LeftToRight);
}

/// Round trip for literals: scanning and then parsing the decimal text of a
/// value `v` yields exactly `Literal(v)`, spanning the whole text.
pub proof fn lemma_parse_literal_text(v: u32, eof: Loc)
    ensures
        ({
            let s = dec_digits(v as int);
            let span = loc_at(1, 1, 1 + s.len() as int);
            &&& tokens_of(s) =~= seq![(Token::Int(v), span)]
            &&& spec_parse(tokens_of(s), eof, 0, 0, Assoc::LeftToRight) == Ok::<
                (Expr, Loc, int),
                ParseError,
            >((Expr::Num(Num { num: v, loc: span }), span, 1))
        }),
{
    let s = dec_digits(v as int);
    let span = loc_at(1, 1, 1 + s.len() as int);
    lemma_dec_digits_wf(v as int);
    lemma_dec_digits_value(v as int);
    lemma_digit_run(s, 0, s.len() as int);
    let n = s.len() as int;
    assert(is_digit(s[0]));
    assert(' ' as u32 == 32 && '\t' as u32 == 9 && '\r' as u32 == 13 && '\n' as u32 == 10);
    assert(!is_space(s[0]) && s[0] != '\n');
    assert(skip_ws(s, 0, 1, 1) == (0int, 1int, 1int));
    assert(token_at(s, 0, 1, 1) == ((Token::Int(v), span), (n, 1int, 1 + n)));
    assert(skip_ws(s, n, 1, 1 + n) == (n, 1int, 1 + n));
    assert(tokens_from(s, n, 1, 1 + n) =~= Seq::<(Token, Loc)>::empty());
    assert(tokens_from(s, 0, 1, 1) =~= seq![(Token::Int(v), span)] + tokens_from(s, n, 1, 1 + n));
    assert(tokens_of(s) =~= seq![(Token::Int(v), span)]);
    lemma_parse_single_literal(tokens_of(s), eof, v, span);
}

/// `loc` begins exactly where `from` begins and ends exactly where `to`
/// ends.
pub open spec fn spans(loc: Loc, from: Loc, to: Loc) -> bool {
    &&& loc.line_start == from.line_start
    &&& loc.col_start == from.col_start
    &&& loc.line_end == to.line_end
    &&& loc.col_end == to.col_end
}

/// The location invariant of the tree: a successful parse consumes at least
/// one token, never runs past the stream, and returns a span that covers
/// exactly the tokens it consumed — from the first one through the last.
pub proof fn lemma_parse_spans(
    tokens: Seq<(Token, Loc)>,
    eof: Loc,
    pos: int,
    min_prec: int,
    min_assoc: Assoc,
)
    requires
        0 <= pos <= tokens.len(),
    ensures
        spec_parse(tokens, eof, pos, min_prec, min_assoc) matches Ok((e, loc, p2)) ==> pos < p2
            <= tokens.len() && spans(loc, tokens[pos].1, tokens[p2 - 1].1),
    decreases tokens.len() - pos, 3int,
{
    lemma_primary_spans(tokens, eof, pos);
    match spec_parse_primary(tokens, eof, pos) {
        Ok((left, loc, p1)) => {
            assert(clip_pos(tokens.len() as int, pos, p1) == p1);
            lemma_loop_spans(tokens, eof, p1, min_prec, min_assoc, left, loc, pos);
        },
        Err(_) => {},
    }
}

/// The location invariant for a primary expression.
proof fn lemma_primary_spans(tokens: Seq<(Token, Loc)>, eof: Loc, pos: int)
    requires
        0 <= pos <= tokens.len(),
    ensures
        spec_parse_primary(tokens, eof, pos) matches Ok((e, loc, p1)) ==> pos < p1 <= tokens.len()
            && spans(loc, tokens[pos].1, tokens[p1 - 1].1),
    decreases tokens.len() - pos, 2int,
{
    if pos < tokens.len() {
        let (token, loc) = tokens[pos];
        match token {
            Token::Int(_) => {},
            Token::LParen => {
                lemma_parse_spans(tokens, eof, pos + 1, 0, Assoc::LeftToRight);
            },
            _ => {
                if Uop::spec_from_token(token) is Some {
                    lemma_parse_spans(tokens, eof, pos + 1, 255, Assoc::LeftToRight);
                }
            },
        }
    }
}

/// The location invariant for the climbing loop: when the span accumulated
/// so far covers the tokens from `start` up to the cursor, every further
/// fold keeps it covering everything consumed.
proof fn lemma_loop_spans(
    tokens: Seq<(Token, Loc)>,
    eof: Loc,
    pos: int,
    min_prec: int,
    min_assoc: Assoc,
    left: Expr,
    loc: Loc,
    start: int,
)
    requires
        0 <= start < pos <= tokens.len(),
        spans(loc, tokens[start].1, tokens[pos - 1].1),
    ensures
        spec_parse_loop(tokens, eof, pos, min_prec, min_assoc, left, loc) matches Ok(
            (e2, loc2, p2),
        ) ==> start < p2 <= tokens.len() && spans(loc2, tokens[start].1, tokens[p2 - 1].1),
    decreases tokens.len() - pos, 0int,
{
    match spec_parse_bop(tokens, pos, min_prec, min_assoc) {
        Ok(Some((op, _op_loc))) => {
            lemma_parse_spans(
                tokens,
                eof,
                pos + 1,
                op.spec_precedence() as int,
                op.spec_associativity(),
            );
            match spec_parse(
                tokens,
                eof,
                pos + 1,
                op.spec_precedence() as int,
                op.spec_associativity(),
            ) {
                Ok((right, rloc, p2)) => {
                    assert(clip_pos(tokens.len() as int, pos + 1, p2) == p2);
                    let merged = loc.spec_merge(rloc);
                    let node = Expr::Binary(
                        Binary { l: Box::new(left), r: Box::new(right), op, loc: merged },
                    );
                    lemma_loop_spans(tokens, eof, p2, min_prec, min_assoc, node, merged, start);
                },
                Err(_) => {},
            }
        },
        _ => {},
    }
}

/// The tokens of a stream with their spans stripped.
pub open spec fn token_kinds(tokens: Seq<(Token, Loc)>) -> Seq<Token> {
    tokens.map_values(|tl: (Token, Loc)| tl.0)
}

/// Stripping spans distributes over concatenation.
proof fn lemma_kinds_concat(a: Seq<(Token, Loc)>, b: Seq<(Token, Loc)>)
    ensures
        token_kinds(a + b) =~= token_kinds(a) + token_kinds(b),
{
}

/// A whitespace character adds nothing to the token stream.
proof fn lemma_tokens_from_space(s: Seq<char>, i: int, line: int, col: int)
    requires
        0 <= i < s.len(),
        is_space(s[i]),
    ensures
        tokens_from(s, i, line, col) == tokens_from(s, i + 1, line, col + 1),
{
    assert(skip_ws(s, i, line, col) == skip_ws(s, i + 1, line, col + 1));
    assert(next_token(s, i, line, col) == next_token(s, i + 1, line, col + 1));
}

/// The first character of a printed tree opens a parenthesis, prints a
/// unary operator, or starts a literal; in particular it is neither
/// whitespace nor an `=`.
proof fn lemma_print_first_char(e: Expr)
    ensures
        e.spec_print().len() >= 1,
        e.spec_print()[0] == '(' || e.spec_print()[0] == '-' || e.spec_print()[0] == '!'
            || is_digit(e.spec_print()[0]),
{
    match e {
        Expr::Num(num) => {
            lemma_dec_digits_wf(num.num as int);
            assert(e.spec_print()[0] == dec_digits(num.num as int)[0]);
        },
        Expr::Unary(unary) => {
            assert(e.spec_print()[0] == unary.op.spec_symbol()[0]);
        },
        Expr::Binary(binary) => {
            assert(e.spec_print()[0] == '(');
        },
    }
}

/// Scanning the printed form of a tree produces exactly its printed tokens,
/// and then carries on with whatever follows. The side condition keeps a
/// literal at the end of the printed form from running together with a
/// digit that follows it.
proof fn lemma_lex_print_region(s: Seq<char>, i: int, line: int, col: int, e: Expr)
    requires
        0 <= i,
        i + e.spec_print().len() <= s.len(),
        forall|k: int| 0 <= k < e.spec_print().len() ==> s[i + k] == #[trigger] e.spec_print()[k],
        i + e.spec_print().len() < s.len() ==> !is_digit(s[i + e.spec_print().len()]),
    ensures
        token_kinds(tokens_from(s, i, line, col)) == print_tokens(e) + token_kinds(
            tokens_from(s, i + e.spec_print().len(), line, col + e.spec_print().len()),
        ),
    decreases e.size(), 1nat,
{
    match e {
        Expr::Num(num) => lemma_lex_print_num(s, i, line, col, num),
        Expr::Unary(unary) => lemma_lex_print_unary(s, i, line, col, unary),
        Expr::Binary(binary) => lemma_lex_print_binary(s, i, line, col, binary),
    }
}

/// The literal case of `lemma_lex_print_region`.
proof fn lemma_lex_print_num(s: Seq<char>, i: int, line: int, col: int, num: Num)
    requires
        0 <= i,
        i + Expr::Num(num).spec_print().len() <= s.len(),
        forall|k: int| 0 <= k < Expr::Num(num).spec_print().len() ==> s[i + k] == #[trigger] Expr::Num(num).spec_print()[k],
        i + Expr::Num(num).spec_print().len() < s.len() ==> !is_digit(s[i + Expr::Num(num).spec_print().len()]),
    ensures
        token_kinds(tokens_from(s, i, line, col)) == print_tokens(Expr::Num(num)) + token_kinds(
            tokens_from(s, i + Expr::Num(num).spec_print().len(), line, col + Expr::Num(num).spec_print().len()),
        ),
    decreases Expr::Num(num).size(), 0nat,
{
    let e = Expr::Num(num);
    let p = e.spec_print();
    let m = p.len() as int;

        lemma_dec_digits_wf(num.num as int);
        lemma_dec_digits_value(num.num as int);
        assert(s[i] == p[0]);
        assert(is_digit(s[i]));
        assert(!is_space(s[i]) && s[i] != '\n');
        assert(skip_ws(s, i, line, col) == (i, line, col));
        assert forall|k: int| i <= k < i + m implies is_digit(#[trigger] s[k]) by {
            assert(s[i + (k - i)] == p[k - i]);
        }
        lemma_digit_run(s, i, i + m);
        assert forall|k: int| 0 <= k < m implies s[i + k] == #[trigger] dec_digits(
            num.num as int,
        )[k] by {}
        lemma_digits_int_shift(s, i, dec_digits(num.num as int), 0, m);
        assert(digits_int(s, i + 0, i + m) == num.num);
        let tok = (Token::Int(num.num), loc_at(line, col, col + m));
        assert(token_at(s, i, line, col) == ((tok.0, tok.1), (i + m, line, col + m)));
        assert(tokens_from(s, i, line, col) == seq![tok] + tokens_from(
            s,
            i + m,
            line,
            col + m,
        ));
        lemma_kinds_concat(seq![tok], tokens_from(s, i + m, line, col + m));
        assert(token_kinds(seq![tok]) =~= seq![Token::Int(num.num)]);
        assert(token_kinds(tokens_from(s, i, line, col)) =~= print_tokens(e) + token_kinds(
            tokens_from(s, i + m, line, col + m),
        ));
}

/// The unary case of `lemma_lex_print_region`.
proof fn lemma_lex_print_unary(s: Seq<char>, i: int, line: int, col: int, unary: Unary)
    requires
        0 <= i,
        i + Expr::Unary(unary).spec_print().len() <= s.len(),
        forall|k: int| 0 <= k < Expr::Unary(unary).spec_print().len() ==> s[i + k] == #[trigger] Expr::Unary(unary).spec_print()[k],
        i + Expr::Unary(unary).spec_print().len() < s.len() ==> !is_digit(s[i + Expr::Unary(unary).spec_print().len()]),
    ensures
        token_kinds(tokens_from(s, i, line, col)) == print_tokens(Expr::Unary(unary)) + token_kinds(
            tokens_from(s, i + Expr::Unary(unary).spec_print().len(), line, col + Expr::Unary(unary).spec_print().len()),
        ),
    decreases Expr::Unary(unary).size(), 0nat,
{
    let e = Expr::Unary(unary);
    let p = e.spec_print();
    let m = p.len() as int;

        let pr = (*unary.r).spec_print();
        let sym = unary.op.spec_symbol();
        assert(sym.len() == 1);
        assert(s[i] == p[0]);
        assert(p[0] == sym[0]);
        assert(!is_space(s[i]) && s[i] != '\n');
        assert(skip_ws(s, i, line, col) == (i, line, col));
        lemma_print_first_char(*unary.r);
        assert(s[i + 1] == p[1]);
        assert(p[1] == pr[0]);
        assert(s[i + 1] != '=');
        let tok = (uop_token(unary.op), loc_at(line, col, col + 1));
        assert(token_at(s, i, line, col) == ((tok.0, tok.1), (i + 1, line, col + 1)));
        assert(tokens_from(s, i, line, col) == seq![tok] + tokens_from(
            s,
            i + 1,
            line,
            col + 1,
        ));
        assert forall|k: int| 0 <= k < pr.len() implies s[(i + 1) + k] == #[trigger] pr[k] by {
            assert(s[i + (1 + k)] == p[1 + k]);
            assert(p[1 + k] == pr[k]);
        }
        lemma_lex_print_region(s, i + 1, line, col + 1, *unary.r);
        lemma_kinds_concat(seq![tok], tokens_from(s, i + 1, line, col + 1));
        assert(token_kinds(seq![tok]) =~= seq![uop_token(unary.op)]);
        assert(seq![uop_token(unary.op)] + (print_tokens(*unary.r) + token_kinds(
            tokens_from(s, i + m, line, col + m),
        )) =~= print_tokens(e) + token_kinds(tokens_from(s, i + m, line, col + m)));
}

/// The binary case of `lemma_lex_print_region`.
#[verifier::rlimit(100)]
proof fn lemma_lex_print_binary(s: Seq<char>, i: int, line: int, col: int, binary: Binary)
    requires
        0 <= i,
        i + Expr::Binary(binary).spec_print().len() <= s.len(),
        forall|k: int| 0 <= k < Expr::Binary(binary).spec_print().len() ==> s[i + k] == #[trigger] Expr::Binary(binary).spec_print()[k],
        i + Expr::Binary(binary).spec_print().len() < s.len() ==> !is_digit(s[i + Expr::Binary(binary).spec_print().len()]),
    ensures
        token_kinds(tokens_from(s, i, line, col)) == print_tokens(Expr::Binary(binary)) + token_kinds(
            tokens_from(s, i + Expr::Binary(binary).spec_print().len(), line, col + Expr::Binary(binary).spec_print().len()),
        ),
    decreases Expr::Binary(binary).size(), 0nat,
{
    let e = Expr::Binary(binary);
    let p = e.spec_print();
    let m = p.len() as int;

        let pl = (*binary.l).spec_print();
        let pr = (*binary.r).spec_print();
        let sym = binary.op.spec_symbol();
        let nl = pl.len() as int;
        let ns = sym.len() as int;
        let nr = pr.len() as int;
        assert(m == 4 + nl + ns + nr);

        // The characters of each piece of the printed form.
        assert(s[i] == p[0] && p[0] == '(');
        assert forall|k: int| 0 <= k < nl implies s[(i + 1) + k] == #[trigger] pl[k] by {
            assert(s[i + (1 + k)] == p[1 + k]);
            assert(p[1 + k] == pl[k]);
        }
        let c_sp1 = i + 1 + nl;
        assert(s[c_sp1] == ' ') by {
            assert(s[i + (1 + nl)] == p[1 + nl]);
            assert(p[1 + nl] == ' ');
        }
        assert forall|k: int| 0 <= k < ns implies s[(c_sp1 + 1) + k] == #[trigger] sym[k] by {
            assert(s[i + (2 + nl + k)] == p[2 + nl + k]);
            assert(p[2 + nl + k] == sym[k]);
        }
        let c_sp2 = c_sp1 + 1 + ns;
        assert(s[c_sp2] == ' ') by {
            assert(s[i + (2 + nl + ns)] == p[2 + nl + ns]);
            assert(p[2 + nl + ns] == ' ');
        }
        assert forall|k: int| 0 <= k < nr implies s[(c_sp2 + 1) + k] == #[trigger] pr[k] by {
            assert(s[i + (3 + nl + ns + k)] == p[3 + nl + ns + k]);
            assert(p[3 + nl + ns + k] == pr[k]);
        }
        let c_rp = c_sp2 + 1 + nr;
        assert(s[c_rp] == ')') by {
            assert(s[i + (3 + nl + ns + nr)] == p[3 + nl + ns + nr]);
            assert(p[3 + nl + ns + nr] == ')');
        }

        // The opening parenthesis.
        assert(skip_ws(s, i, line, col) == (i, line, col));
        let tok_lp = (Token::LParen, loc_at(line, col, col + 1));
        assert(token_at(s, i, line, col) == ((tok_lp.0, tok_lp.1), (i + 1, line, col + 1)));
        assert(tokens_from(s, i, line, col) == seq![tok_lp] + tokens_from(
            s,
            i + 1,
            line,
            col + 1,
        ));

        // The left operand, ended by a space.
        assert(!is_digit(' '));
        lemma_lex_print_region(s, i + 1, line, col + 1, *binary.l);

        // The space, then the operator's symbol.
        lemma_tokens_from_space(s, c_sp1, line, col + 1 + nl);
        let col_sym = col + 2 + nl;
        lemma_print_first_char(*binary.r);
        assert(s[c_sp2 + 1] == pr[0]);
        assert(!is_space(s[c_sp2 + 1]) && s[c_sp2 + 1] != '\n');
        let tok_op = (bop_token(binary.op), loc_at(line, col_sym, col_sym + ns));
        assert(s[c_sp1 + 1] == sym[0]);
        assert(!is_space(sym[0]) && sym[0] != '\n');
        assert(skip_ws(s, c_sp1 + 1, line, col_sym) == (c_sp1 + 1, line, col_sym));
        assert(token_at(s, c_sp1 + 1, line, col_sym) == (
            (tok_op.0, tok_op.1),
            (c_sp2, line, col_sym + ns),
        )) by {
            if ns == 2 {
                assert(s[c_sp1 + 1] == sym[0] && s[c_sp1 + 2] == sym[1]);
            } else {
                assert(s[c_sp1 + 1] == sym[0]);
            }
        }
        assert(tokens_from(s, c_sp1 + 1, line, col_sym) == seq![tok_op] + tokens_from(
            s,
            c_sp2,
            line,
            col_sym + ns,
        ));

        // The second space, then the right operand, ended by `)`.
        lemma_tokens_from_space(s, c_sp2, line, col_sym + ns);
        assert(!is_digit(')'));
        lemma_lex_print_region(s, c_sp2 + 1, line, col_sym + ns + 1, *binary.r);

        // The closing parenthesis.
        let col_rp = col_sym + ns + 1 + nr;
        assert(skip_ws(s, c_rp, line, col_rp) == (c_rp, line, col_rp));
        let tok_rp = (Token::RParen, loc_at(line, col_rp, col_rp + 1));
        assert(token_at(s, c_rp, line, col_rp) == (
            (tok_rp.0, tok_rp.1),
            (c_rp + 1, line, col_rp + 1),
        ));
        assert(tokens_from(s, c_rp, line, col_rp) == seq![tok_rp] + tokens_from(
            s,
            c_rp + 1,
            line,
            col_rp + 1,
        ));

        // Assemble the pieces.
        let tail = token_kinds(tokens_from(s, i + m, line, col + m));
        assert(c_rp + 1 == i + m && col_rp + 1 == col + m);
        lemma_kinds_concat(seq![tok_rp], tokens_from(s, c_rp + 1, line, col_rp + 1));
        assert(token_kinds(tokens_from(s, c_rp, line, col_rp)) =~= seq![Token::RParen] + tail);
        assert(token_kinds(tokens_from(s, c_sp2 + 1, line, col_sym + ns + 1))
            == print_tokens(*binary.r) + token_kinds(
            tokens_from(s, c_rp, line, col_rp),
        ));
        lemma_kinds_concat(seq![tok_op], tokens_from(s, c_sp2, line, col_sym + ns));
        assert(token_kinds(tokens_from(s, c_sp1 + 1, line, col_sym)) =~= seq![
            bop_token(binary.op),
        ] + (print_tokens(*binary.r) + (seq![Token::RParen] + tail)));
        assert(token_kinds(tokens_from(s, i + 1, line, col + 1)) == print_tokens(*binary.l)
            + token_kinds(tokens_from(s, c_sp1, line, col + 1 + nl)));
        lemma_kinds_concat(seq![tok_lp], tokens_from(s, i + 1, line, col + 1));
        assert(token_kinds(tokens_from(s, i, line, col)) =~= seq![Token::LParen] + (
        print_tokens(*binary.l) + (seq![bop_token(binary.op)] + (print_tokens(*binary.r) + (
        seq![Token::RParen] + tail)))));
        assert(print_tokens(e) + tail =~= seq![Token::LParen] + (print_tokens(*binary.l) + (
        seq![bop_token(binary.op)] + (print_tokens(*binary.r) + (seq![Token::RParen]
            + tail)))));
}

/// Idempotence of pretty-printing: scanning and then re-parsing the printed
/// form of any tree yields a tree of the same shape — the same operators and
/// the same literal values; only the spans may differ.
pub proof fn lemma_print_reparse(e: Expr, eof: Loc)
    ensures
        ({
            let toks = tokens_of(e.spec_print());
            let r = spec_parse(toks, eof, 0, 0, Assoc::LeftToRight);
            r matches Ok((e2, loc2, p2)) && same_shape(e2, e) && p2 == toks.len()
        }),
{
    let s = e.spec_print();
    let m = s.len() as int;
    let toks = tokens_of(s);
    lemma_lex_print_region(s, 0, 1, 1, e);
    assert(tokens_from(s, m, 1, 1 + m) =~= Seq::<(Token, Loc)>::empty()) by {
        assert(skip_ws(s, m, 1, 1 + m) == (m, 1int, 1 + m));
    }
    assert(token_kinds(Seq::<(Token, Loc)>::empty()) =~= Seq::<Token>::empty());
    assert(token_kinds(toks) =~= print_tokens(e) + Seq::<Token>::empty());
    assert(token_kinds(toks) =~= print_tokens(e));
    assert(toks.len() == print_tokens(e).len());
    assert forall|k: int| 0 <= k < toks.len() implies toks[k].0 == #[trigger] print_tokens(e)[k] by {
        assert(token_kinds(toks)[k] == toks[k].0);
    }
    lemma_reparse_print_tokens(toks, eof, e);
}

} // verus!
