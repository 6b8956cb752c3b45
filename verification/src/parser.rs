//! The parser: a Pratt (precedence-climbing) expression parser and a
//! keyword-dispatched statement parser over a materialized token vector.
//!
//! As with the scanner, the grammar is pinned down once by a family of
//! specification functions (`sp_expr`, `sp_loop`, `sp_print`, `sp_block`,
//! `sp_params`, `sp_statement`): for every token stream and position they
//! state exactly which tree is built and how far the parser moves, or which
//! diagnostic is produced. The executable parser is proved to match them.

use vstd::prelude::*;

use crate::ast::{lemma_trees_view, nonterm_arity_ok, span_in, tree_spans_in, trees_view, tree_view, wf_tree, Atom, Op, Tree, TreeV};
use crate::diagnostics::Diagnostic;
use crate::scanner::{collect, lemma_scan_from, scan_from};
use crate::token::{LexError, Span, Token, TokenType};

verus! {

/// What the parser found wrong, always together with what it expected
/// where a specific token was required.
#[derive(Debug, Clone, Copy, PartialEq, Eq, Structural)]
pub enum ParseErrorKind {
    /// A specific token (an identifier after `var`, `class` or `fun`) was
    /// required and something else stood there.
    UnexpectedToken { expected: TokenType },
    /// An opening or closing delimiter of `()`, `{}` or `[]` is absent.
    MissingDelimiter { delimiter: TokenType },
    /// Punctuation such as `;` or `=` is absent.
    MissingPunctuation { punctuation: TokenType },
    /// A token that cannot begin an expression stood where an expression
    /// was required.
    ExpectedExpression,
    /// A token that cannot begin a statement stood where a statement was
    /// required; the flag records whether it could begin an expression.
    ExpectedStatementStart { looks_like_expression: bool },
}

/// A structural error as a value: a kind and the byte span of the token at
/// which it was detected.
#[derive(Debug, Clone, Copy, PartialEq, Eq, Structural)]
pub struct ParserError {
    pub kind: ParseErrorKind,
    pub span: Span,
}

/// Right binding power of the prefix operators `-`, `!` and prefix
/// `print`: tighter than every binary operator, so that `-1 + 2` parses as
/// `(-1) + 2`, looser than postfix indexing and field access.
pub open spec fn prefix_bp_spec(k: TokenType) -> Option<u8> {
    match k {
        TokenType::Minus | TokenType::Bang | TokenType::Print => Some(11),
        _ => None,
    }
}

/// Left/right binding powers of the infix operators, low to high: logical
/// `and`/`or`, then equality and relational operators in one tier, then
/// additive, then multiplicative, then field access, which binds to the
/// right. Left-associative tiers use `left < right`.
pub open spec fn infix_bp_spec(k: TokenType) -> Option<(u8, u8)> {
    match k {
        TokenType::And | TokenType::Or => Some((3, 4)),
        TokenType::BangEqual | TokenType::EqualEqual | TokenType::Less | TokenType::LessEqual
            | TokenType::Greater | TokenType::GreaterEqual => Some((5, 6)),
        TokenType::Plus | TokenType::Minus => Some((7, 8)),
        TokenType::Star | TokenType::Slash => Some((9, 10)),
        TokenType::Dot => Some((16, 15)),
        _ => None,
    }
}

/// Left binding power of the one postfix form, bracketed indexing.
pub open spec fn postfix_bp_spec(k: TokenType) -> Option<u8> {
    match k {
        TokenType::LeftBracket => Some(13),
        _ => None,
    }
}

/// Tokens that end an expression rather than continuing it.
pub open spec fn is_terminator_spec(k: TokenType) -> bool {
    match k {
        TokenType::Eof | TokenType::Equal | TokenType::RightParen | TokenType::RightBrace
            | TokenType::RightBracket | TokenType::Comma | TokenType::Semicolon => true,
        _ => false,
    }
}

/// The AST label of an operator token.
pub open spec fn op_of_spec(k: TokenType) -> Op {
    match k {
        TokenType::Minus => Op::Minus,
        TokenType::Plus => Op::Plus,
        TokenType::Star => Op::Star,
        TokenType::Slash => Op::Slash,
        TokenType::Bang => Op::Bang,
        TokenType::BangEqual => Op::BangEqual,
        TokenType::EqualEqual => Op::EqualEqual,
        TokenType::Less => Op::Less,
        TokenType::LessEqual => Op::LessEqual,
        TokenType::Greater => Op::Greater,
        TokenType::GreaterEqual => Op::GreaterEqual,
        TokenType::And => Op::And,
        TokenType::Or => Op::Or,
        TokenType::Dot => Op::Field,
        TokenType::LeftBracket => Op::Call,
        TokenType::Print => Op::Print,
        _ => Op::Group,
    }
}

/// The leaf a literal token turns into, if it is one.
pub open spec fn atom_of_spec(t: Token) -> Option<TreeV> {
    match t.kind {
        TokenType::Number => Some(TreeV::Atom(Atom::Number(t.span))),
        TokenType::String => Some(TreeV::Atom(Atom::String(t.span))),
        TokenType::Identifier => Some(TreeV::Atom(Atom::Ident(t.span))),
        TokenType::True => Some(TreeV::Atom(Atom::Bool(true))),
        TokenType::False => Some(TreeV::Atom(Atom::Bool(false))),
        TokenType::Nil => Some(TreeV::Atom(Atom::Nil)),
        TokenType::This => Some(TreeV::Atom(Atom::This)),
        TokenType::Super => Some(TreeV::Atom(Atom::Super)),
        _ => None,
    }
}

/// Tokens that could begin an expression; used to word the diagnostic for
/// a token that cannot begin a statement.
pub open spec fn starts_expression_spec(k: TokenType) -> bool {
    atom_of_spec(Token { kind: k, span: Span { start: 0, end: 0 } }) is Some || prefix_bp_spec(
        k,
    ) is Some || k == TokenType::LeftParen || k == TokenType::LeftBrace
}

/// The span of the token at `q`, used for diagnostics; in a well-formed
/// stream every position the parser reports lies in bounds.
pub open spec fn span_at(toks: Seq<Token>, q: nat) -> Span {
    if q < toks.len() {
        toks[q as int].span
    } else {
        Span { start: 0, end: 0 }
    }
}

/// Clamp a continuation position into `[lo, hi]`. The specification-level
/// parser applies it to every position handed back by a recursive call, so
/// that its termination is structural; the positions actually handed back
/// always lie in that range and the clamp never moves them.
pub open spec fn step_to(p: nat, lo: nat, hi: nat) -> nat {
    let q = if p >= lo {
        p
    } else {
        lo
    };
    if q <= hi {
        q
    } else {
        hi
    }
}

/// One parse outcome: the tree built and the position just past what was
/// consumed, or the first structural error.
pub open spec fn sp_expr(toks: Seq<Token>, pos: nat, min_bp: u8) -> Result<
    (TreeV, nat),
    ParserError,
>
    decreases toks.len() - pos, 1nat,
{
    if pos >= toks.len() {
        Err(ParserError { kind: ParseErrorKind::ExpectedExpression, span: span_at(toks, pos) })
    } else {
        let t = toks[pos as int];
        if atom_of_spec(t) is Some {
            sp_loop(toks, pos + 1, min_bp, atom_of_spec(t)->Some_0)
        } else if prefix_bp_spec(t.kind) is Some {
            let r_bp = prefix_bp_spec(t.kind)->Some_0;
            match sp_expr(toks, pos + 1, r_bp) {
                Err(e) => Err(e),
                Ok((rhs, p2)) => {
                    let q = step_to(p2, pos + 2, toks.len());
                    sp_loop(toks, q, min_bp, TreeV::NonTerm(op_of_spec(t.kind), seq![rhs]))
                },
            }
        } else if t.kind == TokenType::LeftParen || t.kind == TokenType::LeftBrace {
            let close = if t.kind == TokenType::LeftParen {
                TokenType::RightParen
            } else {
                TokenType::RightBrace
            };
            match sp_expr(toks, pos + 1, 0) {
                Err(e) => Err(e),
                Ok((inner, p2)) => {
                    let q = step_to(p2, pos + 2, toks.len());
                    if q < toks.len() && toks[q as int].kind == close {
                        sp_loop(toks, q + 1, min_bp, TreeV::NonTerm(Op::Group, seq![inner]))
                    } else {
                        Err(ParserError {
                            kind: ParseErrorKind::MissingDelimiter { delimiter: close },
                            span: span_at(toks, q),
                        })
                    }
                },
            }
        } else {
            Err(ParserError { kind: ParseErrorKind::ExpectedExpression, span: t.span })
        }
    }
}

/// The operator loop of the Pratt parser: starting from an accumulated
/// left-hand side, fold in postfix and infix operators whose left binding
/// power reaches `min_bp`, and stop at a terminator or a weaker operator.
pub open spec fn sp_loop(toks: Seq<Token>, pos: nat, min_bp: u8, lhs: TreeV) -> Result<
    (TreeV, nat),
    ParserError,
>
    decreases toks.len() - pos, 0nat,
{
    if pos >= toks.len() {
        Ok((lhs, pos))
    } else {
        let k = toks[pos as int].kind;
        if is_terminator_spec(k) {
            Ok((lhs, pos))
        } else if postfix_bp_spec(k) is Some {
            if postfix_bp_spec(k)->Some_0 < min_bp {
                Ok((lhs, pos))
            } else {
                match sp_expr(toks, pos + 1, 0) {
                    Err(e) => Err(e),
                    Ok((idx, p2)) => {
                        let q = step_to(p2, pos + 2, toks.len());
                        if q < toks.len() && toks[q as int].kind == TokenType::RightBracket {
                            sp_loop(
                                toks,
                                q + 1,
                                min_bp,
                                TreeV::NonTerm(Op::Call, seq![lhs, idx]),
                            )
                        } else {
                            Err(ParserError {
                                kind: ParseErrorKind::MissingDelimiter {
                                    delimiter: TokenType::RightBracket,
                                },
                                span: span_at(toks, q),
                            })
                        }
                    },
                }
            }
        } else if infix_bp_spec(k) is Some {
            let (l_bp, r_bp) = infix_bp_spec(k)->Some_0;
            if l_bp < min_bp {
                Ok((lhs, pos))
            } else {
                match sp_expr(toks, pos + 1, r_bp) {
                    Err(e) => Err(e),
                    Ok((rhs, p2)) => {
                        let q = step_to(p2, pos + 2, toks.len());
                        sp_loop(toks, q, min_bp, TreeV::NonTerm(op_of_spec(k), seq![lhs, rhs]))
                    },
                }
            }
        } else {
            Ok((lhs, pos))
        }
    }
}

/// The tail of a `print` statement, after the keyword: an expression and
/// the closing `;`.
pub open spec fn sp_print(toks: Seq<Token>, pos: nat) -> Result<(TreeV, nat), ParserError>
    decreases toks.len() - pos, 2nat,
{
    match sp_expr(toks, pos, 0) {
        Err(e) => Err(e),
        Ok((e1, p2)) => {
            if p2 < toks.len() && toks[p2 as int].kind == TokenType::Semicolon {
                Ok((TreeV::NonTerm(Op::Print, seq![e1]), p2 + 1))
            } else {
                Err(ParserError {
                    kind: ParseErrorKind::MissingPunctuation { punctuation: TokenType::Semicolon },
                    span: span_at(toks, p2),
                })
            }
        },
    }
}

/// A braced block `{ <statement> }`, which becomes a `Group` node.
pub open spec fn sp_block(toks: Seq<Token>, pos: nat) -> Result<(TreeV, nat), ParserError>
    decreases toks.len() - pos, 2nat,
{
    if pos < toks.len() && toks[pos as int].kind == TokenType::LeftBrace {
        match sp_statement(toks, pos + 1) {
            Err(e) => Err(e),
            Ok((inner, p2)) => {
                let q = step_to(p2, pos + 2, toks.len());
                if q < toks.len() && toks[q as int].kind == TokenType::RightBrace {
                    Ok((TreeV::NonTerm(Op::Group, seq![inner]), q + 1))
                } else {
                    Err(ParserError {
                        kind: ParseErrorKind::MissingDelimiter {
                            delimiter: TokenType::RightBrace,
                        },
                        span: span_at(toks, q),
                    })
                }
            },
        }
    } else {
        Err(ParserError {
            kind: ParseErrorKind::MissingDelimiter { delimiter: TokenType::LeftBrace },
            span: span_at(toks, pos),
        })
    }
}

/// A comma-separated parameter list after the opening `(` of a function
/// declaration; the empty list is permitted.
pub open spec fn sp_params(toks: Seq<Token>, pos: nat, acc: Seq<TreeV>) -> Result<
    (Seq<TreeV>, nat),
    ParserError,
>
    decreases toks.len() - pos, 2nat,
{
    if pos >= toks.len() {
        Err(ParserError {
            kind: ParseErrorKind::MissingDelimiter { delimiter: TokenType::RightParen },
            span: span_at(toks, pos),
        })
    } else if toks[pos as int].kind == TokenType::RightParen {
        Ok((acc, pos + 1))
    } else {
        match sp_expr(toks, pos, 0) {
            Err(e) => Err(e),
            Ok((param, p2)) => {
                let q = step_to(p2, pos + 1, toks.len());
                if q < toks.len() && toks[q as int].kind == TokenType::Comma {
                    sp_params(toks, q + 1, acc + seq![param])
                } else if q < toks.len() && toks[q as int].kind == TokenType::RightParen {
                    Ok((acc + seq![param], q + 1))
                } else {
                    Err(ParserError {
                        kind: ParseErrorKind::UnexpectedToken { expected: TokenType::RightParen },
                        span: span_at(toks, q),
                    })
                }
            },
        }
    }
}

/// One statement, dispatched on its leading token: `print`, `var`, `fun`,
/// `class`, `if`, `while`, `for`, a braced block, or `else`.
pub open spec fn sp_statement(toks: Seq<Token>, pos: nat) -> Result<(TreeV, nat), ParserError>
    decreases toks.len() - pos, 3nat,
{
    if pos >= toks.len() {
        Err(ParserError {
            kind: ParseErrorKind::ExpectedStatementStart { looks_like_expression: false },
            span: span_at(toks, pos),
        })
    } else {
        let t = toks[pos as int];
        match t.kind {
            TokenType::Print => sp_print(toks, pos + 1),
            TokenType::Var => {
                if pos + 1 < toks.len() && toks[pos as int + 1].kind == TokenType::Identifier {
                    if pos + 2 < toks.len() && toks[pos as int + 2].kind == TokenType::Equal {
                        match sp_expr(toks, pos + 3, 0) {
                            Err(e) => Err(e),
                            Ok((init, p2)) => {
                                if p2 < toks.len() && toks[p2 as int].kind
                                    == TokenType::Semicolon {
                                    Ok(
                                        (
                                            TreeV::Var(
                                                toks[pos as int + 1].span,
                                                Box::new(init),
                                            ),
                                            p2 + 1,
                                        ),
                                    )
                                } else {
                                    Err(ParserError {
                                        kind: ParseErrorKind::MissingPunctuation {
                                            punctuation: TokenType::Semicolon,
                                        },
                                        span: span_at(toks, p2),
                                    })
                                }
                            },
                        }
                    } else {
                        Err(ParserError {
                            kind: ParseErrorKind::MissingPunctuation {
                                punctuation: TokenType::Equal,
                            },
                            span: span_at(toks, pos + 2),
                        })
                    }
                } else {
                    Err(ParserError {
                        kind: ParseErrorKind::UnexpectedToken {
                            expected: TokenType::Identifier,
                        },
                        span: span_at(toks, pos + 1),
                    })
                }
            },
            TokenType::Fun => {
                if pos + 1 < toks.len() && toks[pos as int + 1].kind == TokenType::Identifier {
                    if pos + 2 < toks.len() && toks[pos as int + 2].kind == TokenType::LeftParen {
                        match sp_params(toks, pos + 3, Seq::empty()) {
                            Err(e) => Err(e),
                            Ok((params, p2)) => {
                                match sp_block(toks, step_to(p2, pos + 4, toks.len())) {
                                    Err(e) => Err(e),
                                    Ok((body, p3)) => Ok(
                                        (
                                            TreeV::Fun {
                                                name: toks[pos as int + 1].span,
                                                parameters: params,
                                                body: Box::new(body),
                                            },
                                            p3,
                                        ),
                                    ),
                                }
                            },
                        }
                    } else {
                        Err(ParserError {
                            kind: ParseErrorKind::MissingDelimiter {
                                delimiter: TokenType::LeftParen,
                            },
                            span: span_at(toks, pos + 2),
                        })
                    }
                } else {
                    Err(ParserError {
                        kind: ParseErrorKind::UnexpectedToken {
                            expected: TokenType::Identifier,
                        },
                        span: span_at(toks, pos + 1),
                    })
                }
            },
            TokenType::Class => {
                if pos + 1 < toks.len() && toks[pos as int + 1].kind == TokenType::Identifier {
                    match sp_block(toks, pos + 2) {
                        Err(e) => Err(e),
                        Ok((body, p2)) => Ok(
                            (
                                TreeV::NonTerm(
                                    Op::Class,
                                    seq![
                                        TreeV::Atom(Atom::Ident(toks[pos as int + 1].span)),
                                        body,
                                    ],
                                ),
                                p2,
                            ),
                        ),
                    }
                } else {
                    Err(ParserError {
                        kind: ParseErrorKind::UnexpectedToken {
                            expected: TokenType::Identifier,
                        },
                        span: span_at(toks, pos + 1),
                    })
                }
            },
            TokenType::If | TokenType::While => {
                let label = if t.kind == TokenType::If {
                    Op::If
                } else {
                    Op::While
                };
                if pos + 1 < toks.len() && toks[pos as int + 1].kind == TokenType::LeftParen {
                    match sp_expr(toks, pos + 2, 0) {
                        Err(e) => Err(e),
                        Ok((cond, p2)) => {
                            let q = step_to(p2, pos + 3, toks.len());
                            if q < toks.len() && toks[q as int].kind == TokenType::RightParen {
                                match sp_block(toks, q + 1) {
                                    Err(e) => Err(e),
                                    Ok((body, p3)) => Ok(
                                        (TreeV::NonTerm(label, seq![cond, body]), p3),
                                    ),
                                }
                            } else {
                                Err(ParserError {
                                    kind: ParseErrorKind::MissingDelimiter {
                                        delimiter: TokenType::RightParen,
                                    },
                                    span: span_at(toks, q),
                                })
                            }
                        },
                    }
                } else {
                    Err(ParserError {
                        kind: ParseErrorKind::MissingDelimiter {
                            delimiter: TokenType::LeftParen,
                        },
                        span: span_at(toks, pos + 1),
                    })
                }
            },
            TokenType::For => {
                if pos + 1 < toks.len() && toks[pos as int + 1].kind == TokenType::LeftParen {
                    match sp_statement(toks, pos + 2) {
                        Err(e) => Err(e),
                        Ok((init, p2)) => {
                            match sp_expr(toks, step_to(p2, pos + 3, toks.len()), 0) {
                                Err(e) => Err(e),
                                Ok((cond, p3)) => {
                                    let q = step_to(p3, pos + 4, toks.len());
                                    if q < toks.len() && toks[q as int].kind
                                        == TokenType::Semicolon {
                                        match sp_expr(toks, q + 1, 0) {
                                            Err(e) => Err(e),
                                            Ok((incr, p4)) => {
                                                let q2 = step_to(p4, q + 2, toks.len());
                                                if q2 < toks.len() && toks[q2 as int].kind
                                                    == TokenType::RightParen {
                                                    match sp_block(toks, q2 + 1) {
                                                        Err(e) => Err(e),
                                                        Ok((body, p5)) => Ok(
                                                            (
                                                                TreeV::NonTerm(
                                                                    Op::For,
                                                                    seq![init, cond, incr, body],
                                                                ),
                                                                p5,
                                                            ),
                                                        ),
                                                    }
                                                } else {
                                                    Err(ParserError {
                                                        kind: ParseErrorKind::MissingDelimiter {
                                                            delimiter: TokenType::RightParen,
                                                        },
                                                        span: span_at(toks, q2),
                                                    })
                                                }
                                            },
                                        }
                                    } else {
                                        Err(ParserError {
                                            kind: ParseErrorKind::MissingPunctuation {
                                                punctuation: TokenType::Semicolon,
                                            },
                                            span: span_at(toks, q),
                                        })
                                    }
                                },
                            }
                        },
                    }
                } else {
                    Err(ParserError {
                        kind: ParseErrorKind::MissingDelimiter {
                            delimiter: TokenType::LeftParen,
                        },
                        span: span_at(toks, pos + 1),
                    })
                }
            },
            TokenType::LeftBrace => {
                match sp_statement(toks, pos + 1) {
                    Err(e) => Err(e),
                    Ok((inner, p2)) => {
                        let q = step_to(p2, pos + 2, toks.len());
                        if q < toks.len() && toks[q as int].kind == TokenType::RightBrace {
                            Ok((TreeV::NonTerm(Op::Group, seq![inner]), q + 1))
                        } else {
                            Err(ParserError {
                                kind: ParseErrorKind::MissingDelimiter {
                                    delimiter: TokenType::RightBrace,
                                },
                                span: span_at(toks, q),
                            })
                        }
                    },
                }
            },
            TokenType::Else => {
                match sp_statement(toks, pos + 1) {
                    Err(e) => Err(e),
                    Ok((inner, p2)) => Ok((TreeV::NonTerm(Op::Else, seq![inner]), p2)),
                }
            },
            _ => Err(ParserError {
                kind: ParseErrorKind::ExpectedStatementStart {
                    looks_like_expression: starts_expression_spec(t.kind),
                },
                span: t.span,
            }),
        }
    }
}

/// Every token span of the stream lies inside a source of length `n`.
pub open spec fn stream_spans_in(toks: Seq<Token>, n: nat) -> bool {
    forall|i: int| 0 <= i < toks.len() ==> span_in(#[trigger] toks[i].span, n)
}

proof fn lemma_spans_one_node(op: Op, a: TreeV, n: nat)
    requires
        tree_spans_in(a, n),
    ensures
        tree_spans_in(TreeV::NonTerm(op, seq![a]), n),
{
    let cs = seq![a];
    assert forall|i: int| 0 <= i < cs.len() implies tree_spans_in(#[trigger] cs[i], n) by {
        assert(cs[i] == a);
    }
}

proof fn lemma_spans_two_node(op: Op, a: TreeV, b: TreeV, n: nat)
    requires
        tree_spans_in(a, n),
        tree_spans_in(b, n),
    ensures
        tree_spans_in(TreeV::NonTerm(op, seq![a, b]), n),
{
    let cs = seq![a, b];
    assert forall|i: int| 0 <= i < cs.len() implies tree_spans_in(#[trigger] cs[i], n) by {
        if i == 0 {
            assert(cs[i] == a);
        } else {
            assert(cs[i] == b);
        }
    }
}

proof fn lemma_spans_four_node(op: Op, a: TreeV, b: TreeV, c: TreeV, d: TreeV, n: nat)
    requires
        tree_spans_in(a, n),
        tree_spans_in(b, n),
        tree_spans_in(c, n),
        tree_spans_in(d, n),
    ensures
        tree_spans_in(TreeV::NonTerm(op, seq![a, b, c, d]), n),
{
    let cs = seq![a, b, c, d];
    assert forall|i: int| 0 <= i < cs.len() implies tree_spans_in(#[trigger] cs[i], n) by {
        if i == 0 {
            assert(cs[i] == a);
        } else if i == 1 {
            assert(cs[i] == b);
        } else if i == 2 {
            assert(cs[i] == c);
        } else {
            assert(cs[i] == d);
        }
    }
}

proof fn lemma_spans_expr(toks: Seq<Token>, pos: nat, min_bp: u8, n: nat)
    requires
        stream_spans_in(toks, n),
    ensures
        sp_expr(toks, pos, min_bp) matches Ok(r) ==> tree_spans_in(r.0, n),
    decreases toks.len() - pos, 1nat,
{
    if pos >= toks.len() {
    } else {
        let t = toks[pos as int];
        if atom_of_spec(t) is Some {
            lemma_spans_loop(toks, pos + 1, min_bp, atom_of_spec(t)->Some_0, n);
        } else if prefix_bp_spec(t.kind) is Some {
            let r_bp = prefix_bp_spec(t.kind)->Some_0;
            lemma_spans_expr(toks, pos + 1, r_bp, n);
            match sp_expr(toks, pos + 1, r_bp) {
                Ok((rhs, p2)) => {
                    let q = step_to(p2, pos + 2, toks.len());
                    lemma_spans_one_node(op_of_spec(t.kind), rhs, n);
                    lemma_spans_loop(
                        toks,
                        q,
                        min_bp,
                        TreeV::NonTerm(op_of_spec(t.kind), seq![rhs]),
                        n,
                    );
                },
                Err(_) => {},
            }
        } else if t.kind == TokenType::LeftParen || t.kind == TokenType::LeftBrace {
            lemma_spans_expr(toks, pos + 1, 0, n);
            match sp_expr(toks, pos + 1, 0) {
                Ok((inner, p2)) => {
                    let q = step_to(p2, pos + 2, toks.len());
                    let close = if t.kind == TokenType::LeftParen {
                        TokenType::RightParen
                    } else {
                        TokenType::RightBrace
                    };
                    if q < toks.len() && toks[q as int].kind == close {
                        lemma_spans_one_node(Op::Group, inner, n);
                        lemma_spans_loop(
                            toks,
                            q + 1,
                            min_bp,
                            TreeV::NonTerm(Op::Group, seq![inner]),
                            n,
                        );
                    }
                },
                Err(_) => {},
            }
        } else {
        }
    }
}

proof fn lemma_spans_loop(toks: Seq<Token>, pos: nat, min_bp: u8, lhs: TreeV, n: nat)
    requires
        stream_spans_in(toks, n),
        tree_spans_in(lhs, n),
    ensures
        sp_loop(toks, pos, min_bp, lhs) matches Ok(r) ==> tree_spans_in(r.0, n),
    decreases toks.len() - pos, 0nat,
{
    if pos >= toks.len() {
    } else {
        let k = toks[pos as int].kind;
        if is_terminator_spec(k) {
        } else if postfix_bp_spec(k) is Some {
            if postfix_bp_spec(k)->Some_0 < min_bp {
            } else {
                lemma_spans_expr(toks, pos + 1, 0, n);
                match sp_expr(toks, pos + 1, 0) {
                    Ok((idx, p2)) => {
                        let q = step_to(p2, pos + 2, toks.len());
                        if q < toks.len() && toks[q as int].kind == TokenType::RightBracket {
                            lemma_spans_two_node(Op::Call, lhs, idx, n);
                            lemma_spans_loop(
                                toks,
                                q + 1,
                                min_bp,
                                TreeV::NonTerm(Op::Call, seq![lhs, idx]),
                                n,
                            );
                        }
                    },
                    Err(_) => {},
                }
            }
        } else if infix_bp_spec(k) is Some {
            let (l_bp, r_bp) = infix_bp_spec(k)->Some_0;
            if l_bp < min_bp {
            } else {
                lemma_spans_expr(toks, pos + 1, r_bp, n);
                match sp_expr(toks, pos + 1, r_bp) {
                    Ok((rhs, p2)) => {
                        let q = step_to(p2, pos + 2, toks.len());
                        lemma_spans_two_node(op_of_spec(k), lhs, rhs, n);
                        lemma_spans_loop(
                            toks,
                            q,
                            min_bp,
                            TreeV::NonTerm(op_of_spec(k), seq![lhs, rhs]),
                            n,
                        );
                    },
                    Err(_) => {},
                }
            }
        } else {
        }
    }
}

proof fn lemma_spans_print(toks: Seq<Token>, pos: nat, n: nat)
    requires
        stream_spans_in(toks, n),
    ensures
        sp_print(toks, pos) matches Ok(r) ==> tree_spans_in(r.0, n),
    decreases toks.len() - pos, 2nat,
{
    lemma_spans_expr(toks, pos, 0, n);
    match sp_expr(toks, pos, 0) {
        Ok((e1, _)) => {
            lemma_spans_one_node(Op::Print, e1, n);
        },
        Err(_) => {},
    }
}

proof fn lemma_spans_block(toks: Seq<Token>, pos: nat, n: nat)
    requires
        stream_spans_in(toks, n),
    ensures
        sp_block(toks, pos) matches Ok(r) ==> tree_spans_in(r.0, n),
    decreases toks.len() - pos, 2nat,
{
    if pos < toks.len() && toks[pos as int].kind == TokenType::LeftBrace {
        lemma_spans_statement(toks, pos + 1, n);
        match sp_statement(toks, pos + 1) {
            Ok((inner, _)) => {
                lemma_spans_one_node(Op::Group, inner, n);
            },
            Err(_) => {},
        }
    }
}

proof fn lemma_spans_params(toks: Seq<Token>, pos: nat, acc: Seq<TreeV>, n: nat)
    requires
        stream_spans_in(toks, n),
        forall|i: int| 0 <= i < acc.len() ==> tree_spans_in(#[trigger] acc[i], n),
    ensures
        sp_params(toks, pos, acc) matches Ok(r) ==> forall|i: int|
            0 <= i < r.0.len() ==> tree_spans_in(#[trigger] r.0[i], n),
    decreases toks.len() - pos, 2nat,
{
    if pos >= toks.len() {
    } else if toks[pos as int].kind == TokenType::RightParen {
    } else {
        lemma_spans_expr(toks, pos, 0, n);
        match sp_expr(toks, pos, 0) {
            Ok((param, p2)) => {
                let q = step_to(p2, pos + 1, toks.len());
                let acc2 = acc + seq![param];
                assert forall|i: int| 0 <= i < acc2.len() implies tree_spans_in(
                    #[trigger] acc2[i],
                    n,
                ) by {
                    if i < acc.len() {
                        assert(acc2[i] == acc[i]);
                    } else {
                        assert(acc2[i] == param);
                    }
                }
                if q < toks.len() && toks[q as int].kind == TokenType::Comma {
                    lemma_spans_params(toks, q + 1, acc2, n);
                }
            },
            Err(_) => {},
        }
    }
}

proof fn lemma_spans_statement(toks: Seq<Token>, pos: nat, n: nat)
    requires
        stream_spans_in(toks, n),
    ensures
        sp_statement(toks, pos) matches Ok(r) ==> tree_spans_in(r.0, n),
    decreases toks.len() - pos, 3nat,
{
    if pos >= toks.len() {
    } else {
        let t = toks[pos as int];
        match t.kind {
            TokenType::Print => {
                lemma_spans_print(toks, pos + 1, n);
            },
            TokenType::Var => {
                if pos + 1 < toks.len() && toks[pos as int + 1].kind == TokenType::Identifier {
                    if pos + 2 < toks.len() && toks[pos as int + 2].kind == TokenType::Equal {
                        lemma_spans_expr(toks, pos + 3, 0, n);
                    }
                }
            },
            TokenType::Fun => {
                if pos + 1 < toks.len() && toks[pos as int + 1].kind == TokenType::Identifier {
                    if pos + 2 < toks.len() && toks[pos as int + 2].kind == TokenType::LeftParen {
                        lemma_spans_params(toks, pos + 3, Seq::empty(), n);
                        match sp_params(toks, pos + 3, Seq::empty()) {
                            Ok((_, p2)) => {
                                lemma_spans_block(toks, step_to(p2, pos + 4, toks.len()), n);
                            },
                            Err(_) => {},
                        }
                    }
                }
            },
            TokenType::Class => {
                if pos + 1 < toks.len() && toks[pos as int + 1].kind == TokenType::Identifier {
                    lemma_spans_block(toks, pos + 2, n);
                    match sp_block(toks, pos + 2) {
                        Ok((body, _)) => {
                            lemma_spans_two_node(
                                Op::Class,
                                TreeV::Atom(Atom::Ident(toks[pos as int + 1].span)),
                                body,
                                n,
                            );
                        },
                        Err(_) => {},
                    }
                }
            },
            TokenType::If | TokenType::While => {
                let label = if t.kind == TokenType::If {
                    Op::If
                } else {
                    Op::While
                };
                if pos + 1 < toks.len() && toks[pos as int + 1].kind == TokenType::LeftParen {
                    lemma_spans_expr(toks, pos + 2, 0, n);
                    match sp_expr(toks, pos + 2, 0) {
                        Ok((cond, p2)) => {
                            let q = step_to(p2, pos + 3, toks.len());
                            if q < toks.len() && toks[q as int].kind == TokenType::RightParen {
                                lemma_spans_block(toks, q + 1, n);
                                match sp_block(toks, q + 1) {
                                    Ok((body, _)) => {
                                        lemma_spans_two_node(label, cond, body, n);
                                    },
                                    Err(_) => {},
                                }
                            }
                        },
                        Err(_) => {},
                    }
                }
            },
            TokenType::For => {
                if pos + 1 < toks.len() && toks[pos as int + 1].kind == TokenType::LeftParen {
                    lemma_spans_statement(toks, pos + 2, n);
                    match sp_statement(toks, pos + 2) {
                        Ok((init, p2)) => {
                            lemma_spans_expr(toks, step_to(p2, pos + 3, toks.len()), 0, n);
                            match sp_expr(toks, step_to(p2, pos + 3, toks.len()), 0) {
                                Ok((cond, p3)) => {
                                    let q = step_to(p3, pos + 4, toks.len());
                                    if q < toks.len() && toks[q as int].kind
                                        == TokenType::Semicolon {
                                        lemma_spans_expr(toks, q + 1, 0, n);
                                        match sp_expr(toks, q + 1, 0) {
                                            Ok((incr, p4)) => {
                                                let q2 = step_to(p4, q + 2, toks.len());
                                                if q2 < toks.len() && toks[q2 as int].kind
                                                    == TokenType::RightParen {
                                                    lemma_spans_block(toks, q2 + 1, n);
                                                    match sp_block(toks, q2 + 1) {
                                                        Ok((body, _)) => {
                                                            lemma_spans_four_node(
                                                                Op::For,
                                                                init,
                                                                cond,
                                                                incr,
                                                                body,
                                                                n,
                                                            );
                                                        },
                                                        Err(_) => {},
                                                    }
                                                }
                                            },
                                            Err(_) => {},
                                        }
                                    }
                                },
                                Err(_) => {},
                            }
                        },
                        Err(_) => {},
                    }
                }
            },
            TokenType::LeftBrace => {
                lemma_spans_statement(toks, pos + 1, n);
                match sp_statement(toks, pos + 1) {
                    Ok((inner, _)) => {
                        lemma_spans_one_node(Op::Group, inner, n);
                    },
                    Err(_) => {},
                }
            },
            TokenType::Else => {
                lemma_spans_statement(toks, pos + 1, n);
                match sp_statement(toks, pos + 1) {
                    Ok((inner, _)) => {
                        lemma_spans_one_node(Op::Else, inner, n);
                    },
                    Err(_) => {},
                }
            },
            _ => {},
        }
    }
}

fn prefix_bp(k: TokenType) -> (r: Option<u8>)
    ensures
        r == prefix_bp_spec(k),
{
    match k {
        TokenType::Minus | TokenType::Bang | TokenType::Print => Some(11),
        _ => None,
    }
}

fn infix_bp(k: TokenType) -> (r: Option<(u8, u8)>)
    ensures
        r == infix_bp_spec(k),
{
    match k {
        TokenType::And | TokenType::Or => Some((3, 4)),
        TokenType::BangEqual | TokenType::EqualEqual | TokenType::Less | TokenType::LessEqual
            | TokenType::Greater | TokenType::GreaterEqual => Some((5, 6)),
        TokenType::Plus | TokenType::Minus => Some((7, 8)),
        TokenType::Star | TokenType::Slash => Some((9, 10)),
        TokenType::Dot => Some((16, 15)),
        _ => None,
    }
}

fn postfix_bp(k: TokenType) -> (r: Option<u8>)
    ensures
        r == postfix_bp_spec(k),
{
    match k {
        TokenType::LeftBracket => Some(13),
        _ => None,
    }
}

fn is_terminator(k: TokenType) -> (r: bool)
    ensures
        r == is_terminator_spec(k),
{
    match k {
        TokenType::Eof | TokenType::Equal | TokenType::RightParen | TokenType::RightBrace
            | TokenType::RightBracket | TokenType::Comma | TokenType::Semicolon => true,
        _ => false,
    }
}

fn op_of(k: TokenType) -> (r: Op)
    ensures
        r == op_of_spec(k),
{
    match k {
        TokenType::Minus => Op::Minus,
        TokenType::Plus => Op::Plus,
        TokenType::Star => Op::Star,
        TokenType::Slash => Op::Slash,
        TokenType::Bang => Op::Bang,
        TokenType::BangEqual => Op::BangEqual,
        TokenType::EqualEqual => Op::EqualEqual,
        TokenType::Less => Op::Less,
        TokenType::LessEqual => Op::LessEqual,
        TokenType::Greater => Op::Greater,
        TokenType::GreaterEqual => Op::GreaterEqual,
        TokenType::And => Op::And,
        TokenType::Or => Op::Or,
        TokenType::Dot => Op::Field,
        TokenType::LeftBracket => Op::Call,
        TokenType::Print => Op::Print,
        _ => Op::Group,
    }
}

fn atom_of(t: Token) -> (r: Option<Tree>)
    ensures
        match r {
            Some(tr) => atom_of_spec(t) == Some(tree_view(tr)),
            None => atom_of_spec(t) is None,
        },
{
    match t.kind {
        TokenType::Number => Some(Tree::Atom(Atom::Number(t.span))),
        TokenType::String => Some(Tree::Atom(Atom::String(t.span))),
        TokenType::Identifier => Some(Tree::Atom(Atom::Ident(t.span))),
        TokenType::True => Some(Tree::Atom(Atom::Bool(true))),
        TokenType::False => Some(Tree::Atom(Atom::Bool(false))),
        TokenType::Nil => Some(Tree::Atom(Atom::Nil)),
        TokenType::This => Some(Tree::Atom(Atom::This)),
        TokenType::Super => Some(Tree::Atom(Atom::Super)),
        _ => None,
    }
}

fn one_child(a: Tree) -> (v: Vec<Tree>)
    ensures
        v@ == seq![a],
{
    let mut v = Vec::new();
    v.push(a);
    proof {
        assert(v@ =~= seq![a]);
    }
    v
}

fn two_children(a: Tree, b: Tree) -> (v: Vec<Tree>)
    ensures
        v@ == seq![a, b],
{
    let mut v = Vec::new();
    v.push(a);
    v.push(b);
    proof {
        assert(v@ =~= seq![a, b]);
    }
    v
}

fn four_children(a: Tree, b: Tree, c: Tree, d: Tree) -> (v: Vec<Tree>)
    ensures
        v@ == seq![a, b, c, d],
{
    let mut v = Vec::new();
    v.push(a);
    v.push(b);
    v.push(c);
    v.push(d);
    proof {
        assert(v@ =~= seq![a, b, c, d]);
    }
    v
}

/// The view of a one-child node is the node over the child's view, and is
/// well-formed when the child is and the operator takes one child.
proof fn lemma_view_one(op: Op, a: Tree, v: Vec<Tree>)
    requires
        v@ == seq![a],
    ensures
        tree_view(Tree::NonTerm(op, v)) == TreeV::NonTerm(op, seq![tree_view(a)]),
        wf_tree(tree_view(a)) && nonterm_arity_ok(op, 1) ==> wf_tree(
            tree_view(Tree::NonTerm(op, v)),
        ),
{
    lemma_trees_view(v@);
    assert(trees_view(v@) =~= seq![tree_view(a)]);
    if wf_tree(tree_view(a)) && nonterm_arity_ok(op, 1) {
        let cs = seq![tree_view(a)];
        assert forall|i: int| 0 <= i < cs.len() implies wf_tree(#[trigger] cs[i]) by {
            assert(cs[i] == tree_view(a));
        }
    }
}

/// The view of a two-child node is the node over the children's views, and
/// is well-formed when the children are and the operator takes two.
proof fn lemma_view_two(op: Op, a: Tree, b: Tree, v: Vec<Tree>)
    requires
        v@ == seq![a, b],
    ensures
        tree_view(Tree::NonTerm(op, v)) == TreeV::NonTerm(op, seq![tree_view(a), tree_view(b)]),
        wf_tree(tree_view(a)) && wf_tree(tree_view(b)) && nonterm_arity_ok(op, 2) ==> wf_tree(
            tree_view(Tree::NonTerm(op, v)),
        ),
{
    lemma_trees_view(v@);
    assert(trees_view(v@) =~= seq![tree_view(a), tree_view(b)]);
    if wf_tree(tree_view(a)) && wf_tree(tree_view(b)) && nonterm_arity_ok(op, 2) {
        let cs = seq![tree_view(a), tree_view(b)];
        assert forall|i: int| 0 <= i < cs.len() implies wf_tree(#[trigger] cs[i]) by {
            if i == 0 {
                assert(cs[i] == tree_view(a));
            } else {
                assert(cs[i] == tree_view(b));
            }
        }
    }
}

/// The view of a four-child node is the node over the children's views,
/// and is well-formed when the children are and the operator takes four.
proof fn lemma_view_four(op: Op, a: Tree, b: Tree, c: Tree, d: Tree, v: Vec<Tree>)
    requires
        v@ == seq![a, b, c, d],
    ensures
        tree_view(Tree::NonTerm(op, v)) == TreeV::NonTerm(
            op,
            seq![tree_view(a), tree_view(b), tree_view(c), tree_view(d)],
        ),
        wf_tree(tree_view(a)) && wf_tree(tree_view(b)) && wf_tree(tree_view(c)) && wf_tree(
            tree_view(d),
        ) && nonterm_arity_ok(op, 4) ==> wf_tree(tree_view(Tree::NonTerm(op, v))),
{
    lemma_trees_view(v@);
    assert(trees_view(v@) =~= seq![tree_view(a), tree_view(b), tree_view(c), tree_view(d)]);
    if wf_tree(tree_view(a)) && wf_tree(tree_view(b)) && wf_tree(tree_view(c)) && wf_tree(
        tree_view(d),
    ) && nonterm_arity_ok(op, 4) {
        let cs = seq![tree_view(a), tree_view(b), tree_view(c), tree_view(d)];
        assert forall|i: int| 0 <= i < cs.len() implies wf_tree(#[trigger] cs[i]) by {
            if i == 0 {
                assert(cs[i] == tree_view(a));
            } else if i == 1 {
                assert(cs[i] == tree_view(b));
            } else if i == 2 {
                assert(cs[i] == tree_view(c));
            } else {
                assert(cs[i] == tree_view(d));
            }
        }
    }
}

fn starts_expression(k: TokenType) -> (r: bool)
    ensures
        r == starts_expression_spec(k),
{
    match k {
        TokenType::Number | TokenType::String | TokenType::Identifier | TokenType::True
            | TokenType::False | TokenType::Nil | TokenType::This | TokenType::Super
            | TokenType::Minus | TokenType::Bang | TokenType::Print | TokenType::LeftParen
            | TokenType::LeftBrace => true,
        _ => false,
    }
}

/// The binding-power table makes equal-precedence infix operators chain
/// left to right (each tier's left power is below its right power), makes
/// field access bind to the right instead, and places the prefix operators
/// above every infix tier but field access, so that a prefix operator
/// takes only its nearest operand.
pub proof fn lemma_binding_powers()
    ensures
        forall|k: TokenType|
            (#[trigger] infix_bp_spec(k)) is Some && k != TokenType::Dot
                ==> infix_bp_spec(k)->Some_0.0 < infix_bp_spec(k)->Some_0.1,
        infix_bp_spec(TokenType::Dot) == Some((16u8, 15u8)),
        forall|k: TokenType, j: TokenType|
            (#[trigger] prefix_bp_spec(k)) is Some && (#[trigger] infix_bp_spec(j)) is Some && j
                != TokenType::Dot ==> infix_bp_spec(j)->Some_0.0 < prefix_bp_spec(k)->Some_0,
{
}

/// A stream as `collect` hands it over: it ends with the one `Eof` token.
pub open spec fn wf_stream(toks: Seq<Token>) -> bool {
    &&& toks.len() >= 1
    &&& toks[toks.len() - 1].kind == TokenType::Eof
    &&& forall|i: int| 0 <= i < toks.len() - 1 ==> #[trigger] toks[i].kind != TokenType::Eof
}

/// The parser: a materialized token stream and a position in it.
pub struct Parser {
    pub stream: Vec<Token>,
    pub pos: usize,
}

impl Parser {
    pub open spec fn wf(self) -> bool {
        wf_stream(self.stream@) && self.pos <= self.stream@.len()
    }

    /// Tokenize the whole input and stand ready at its first token; the
    /// first lexical error, if any, is returned instead.
    pub fn new(input: &[u8]) -> (r: Result<Parser, LexError>)
        requires
            input@.len() < usize::MAX,
        ensures
            r matches Ok(p) ==> scan_from(input@, 0) == Ok::<Seq<Token>, LexError>(p.stream@)
                && p.pos == 0 && p.wf(),
            r matches Err(e) ==> scan_from(input@, 0) == Err::<Seq<Token>, LexError>(e),
    {
        match collect(input) {
            Ok(stream) => {
                proof {
                    lemma_scan_from(input@, 0);
                }
                Ok(Parser { stream, pos: 0 })
            },
            Err(e) => Err(e),
        }
    }

    /// Consume and return the token at the current position. The grammar
    /// observes `Eof` before the stream is exhausted, so a position inside
    /// the stream is an invariant, not a run-time concern.
    pub fn advance(&mut self) -> (t: Token)
        requires
            old(self).wf(),
            old(self).pos < old(self).stream@.len(),
        ensures
            final(self).wf(),
            final(self).stream@ == old(self).stream@,
            final(self).pos == old(self).pos + 1,
            t == old(self).stream@[old(self).pos as int],
    {
        // Reading the length as a machine word bounds the position, so the
        // increment below cannot overflow.
        let n = self.stream.len();
        let t = self.stream[self.pos];
        self.pos = self.pos + 1;
        proof {
            assert(self.pos <= n);
        }
        t
    }

    /// The most recently consumed token.
    pub fn current(&mut self) -> (t: Token)
        requires
            old(self).wf(),
            1 <= old(self).pos,
        ensures
            *final(self) == *old(self),
            t == old(self).stream@[old(self).pos - 1],
    {
        self.stream[self.pos - 1]
    }

    /// The token at the current position, without consuming it.
    pub fn peek(&mut self) -> (t: Token)
        requires
            old(self).wf(),
            old(self).pos < old(self).stream@.len(),
        ensures
            *final(self) == *old(self),
            t == old(self).stream@[old(self).pos as int],
    {
        self.stream[self.pos]
    }

    /// Whether the token at the current position has the given kind.
    fn expect(&mut self, input: TokenType) -> (r: bool)
        requires
            old(self).wf(),
            old(self).pos < old(self).stream@.len(),
        ensures
            *final(self) == *old(self),
            r == (old(self).stream@[old(self).pos as int].kind == input),
    {
        self.peek().kind == input
    }

    /// Whether the token at the current position is `;`.
    fn expect_semicolon(&mut self) -> (r: bool)
        requires
            old(self).wf(),
            old(self).pos < old(self).stream@.len(),
        ensures
            *final(self) == *old(self),
            r == (old(self).stream@[old(self).pos as int].kind == TokenType::Semicolon),
    {
        self.expect(TokenType::Semicolon)
    }

    /// Parse one expression with the Pratt loop, folding in every operator
    /// that binds at least as tightly as `min_bp`; the result and the new
    /// position are exactly those of `sp_expr`.
    #[verifier::loop_isolation(false)]
    pub fn parse_expr(&mut self, min_bp: u8) -> (r: Result<Tree, ParserError>)
        requires
            old(self).wf(),
            old(self).pos < old(self).stream@.len(),
        ensures
            final(self).wf(),
            final(self).stream@ == old(self).stream@,
            old(self).pos <= final(self).pos,
            final(self).pos <= final(self).stream@.len(),
            match r {
                Ok(t) => sp_expr(old(self).stream@, old(self).pos as nat, min_bp) == Ok::<
                    (TreeV, nat),
                    ParserError,
                >((tree_view(t), final(self).pos as nat)) && wf_tree(tree_view(t)) && old(
                    self,
                ).pos < final(self).pos && final(self).pos < final(self).stream@.len(),
                Err(e) => sp_expr(old(self).stream@, old(self).pos as nat, min_bp) == Err::<
                    (TreeV, nat),
                    ParserError,
                >(e),
            },
        decreases old(self).stream@.len() - old(self).pos, 1nat,
    {
        let ghost toks = self.stream@;
        let ghost pos0 = self.pos as nat;
        let t = self.advance();
        let mut lhs: Tree;

        if let Some(a) = atom_of(t) {
            lhs = a;
        } else if let Some(r_bp) = prefix_bp(t.kind) {
            match self.parse_expr(r_bp) {
                Err(e) => {
                    return Err(e);
                },
                Ok(rhs) => {
                    let ghost p2 = self.pos as nat;
                    let ghost rhs_g = rhs;
                    let children = one_child(rhs);
                    proof {
                        lemma_view_one(op_of_spec(t.kind), rhs_g, children);
                        assert(step_to(p2, pos0 + 2, toks.len()) == p2);
                    }
                    lhs = Tree::NonTerm(op_of(t.kind), children);
                },
            }
        } else if t.kind == TokenType::LeftParen || t.kind == TokenType::LeftBrace {
            let close = if t.kind == TokenType::LeftParen {
                TokenType::RightParen
            } else {
                TokenType::RightBrace
            };
            match self.parse_expr(0) {
                Err(e) => {
                    return Err(e);
                },
                Ok(inner) => {
                    let ghost p2 = self.pos as nat;
                    let c = self.peek();
                    if c.kind == close {
                        self.advance();
                        let ghost inner_g = inner;
                        let children = one_child(inner);
                        proof {
                            lemma_view_one(Op::Group, inner_g, children);
                            assert(step_to(p2, pos0 + 2, toks.len()) == p2);
                        }
                        lhs = Tree::NonTerm(Op::Group, children);
                    } else {
                        proof {
                            assert(step_to(p2, pos0 + 2, toks.len()) == p2);
                        }
                        return Err(ParserError {
                            kind: ParseErrorKind::MissingDelimiter { delimiter: close },
                            span: c.span,
                        });
                    }
                },
            }
        } else {
            return Err(ParserError { kind: ParseErrorKind::ExpectedExpression, span: t.span });
        }

        loop
            invariant
                self.wf(),
                self.stream@ == toks,
                pos0 < self.pos,
                self.pos < toks.len(),
                wf_tree(tree_view(lhs)),
                sp_expr(toks, pos0, min_bp) == sp_loop(toks, self.pos as nat, min_bp, tree_view(lhs)),
            decreases toks.len() - self.pos,
        {
            let op_tok = self.peek();
            let k = op_tok.kind;
            let ghost lhs_v = tree_view(lhs);
            if is_terminator(k) {
                proof {
                    assert(sp_loop(toks, self.pos as nat, min_bp, lhs_v) == Ok::<
                        (TreeV, nat),
                        ParserError,
                    >((lhs_v, self.pos as nat)));
                }
                return Ok(lhs);
            }
            if let Some(l_bp) = postfix_bp(k) {
                if l_bp < min_bp {
                    proof {
                        assert(sp_loop(toks, self.pos as nat, min_bp, lhs_v) == Ok::<
                            (TreeV, nat),
                            ParserError,
                        >((lhs_v, self.pos as nat)));
                    }
                    return Ok(lhs);
                }
                let ghost p_op = self.pos as nat;
                self.advance();
                match self.parse_expr(0) {
                    Err(e) => {
                        return Err(e);
                    },
                    Ok(idx) => {
                        let ghost p2 = self.pos as nat;
                        let c = self.peek();
                        if c.kind == TokenType::RightBracket {
                            self.advance();
                            let ghost lhs_g = lhs;
                            let ghost idx_g = idx;
                            let children = two_children(lhs, idx);
                            proof {
                                lemma_view_two(Op::Call, lhs_g, idx_g, children);
                                assert(step_to(p2, p_op + 2, toks.len()) == p2);
                            }
                            lhs = Tree::NonTerm(Op::Call, children);
                        } else {
                            proof {
                                assert(step_to(p2, p_op + 2, toks.len()) == p2);
                            }
                            return Err(ParserError {
                                kind: ParseErrorKind::MissingDelimiter {
                                    delimiter: TokenType::RightBracket,
                                },
                                span: c.span,
                            });
                        }
                    },
                }
            } else if let Some(bp_pair) = infix_bp(k) {
                let (l_bp, r_bp) = bp_pair;
                if l_bp < min_bp {
                    proof {
                        assert(sp_loop(toks, self.pos as nat, min_bp, lhs_v) == Ok::<
                            (TreeV, nat),
                            ParserError,
                        >((lhs_v, self.pos as nat)));
                    }
                    return Ok(lhs);
                }
                let ghost p_op = self.pos as nat;
                self.advance();
                match self.parse_expr(r_bp) {
                    Err(e) => {
                        return Err(e);
                    },
                    Ok(rhs) => {
                        let ghost p2 = self.pos as nat;
                        let ghost lhs_g = lhs;
                        let ghost rhs_g = rhs;
                        let children = two_children(lhs, rhs);
                        proof {
                            lemma_view_two(op_of_spec(k), lhs_g, rhs_g, children);
                            assert(step_to(p2, p_op + 2, toks.len()) == p2);
                        }
                        lhs = Tree::NonTerm(op_of(k), children);
                    },
                }
            } else {
                proof {
                    assert(sp_loop(toks, self.pos as nat, min_bp, lhs_v) == Ok::<
                        (TreeV, nat),
                        ParserError,
                    >((lhs_v, self.pos as nat)));
                }
                return Ok(lhs);
            }
        }
    }

    /// The tail of a `print` statement, entered after the keyword itself
    /// has been consumed: the printed expression and its closing `;`.
    pub fn parse_print(&mut self) -> (r: Result<Tree, ParserError>)
        requires
            old(self).wf(),
            old(self).pos < old(self).stream@.len(),
        ensures
            final(self).wf(),
            final(self).stream@ == old(self).stream@,
            old(self).pos <= final(self).pos,
            final(self).pos <= final(self).stream@.len(),
            match r {
                Ok(t) => sp_print(old(self).stream@, old(self).pos as nat) == Ok::<
                    (TreeV, nat),
                    ParserError,
                >((tree_view(t), final(self).pos as nat)) && wf_tree(tree_view(t)) && old(
                    self,
                ).pos < final(self).pos && final(self).pos < final(self).stream@.len(),
                Err(e) => sp_print(old(self).stream@, old(self).pos as nat) == Err::<
                    (TreeV, nat),
                    ParserError,
                >(e),
            },
        decreases old(self).stream@.len() - old(self).pos, 2nat,
    {
        match self.parse_expr(0) {
            Err(e) => Err(e),
            Ok(e1) => {
                if self.expect_semicolon() {
                    self.advance();
                    let ghost e1_g = e1;
                    let children = one_child(e1);
                    proof {
                        lemma_view_one(Op::Print, e1_g, children);
                    }
                    Ok(Tree::NonTerm(Op::Print, children))
                } else {
                    let c = self.peek();
                    Err(ParserError {
                        kind: ParseErrorKind::MissingPunctuation {
                            punctuation: TokenType::Semicolon,
                        },
                        span: c.span,
                    })
                }
            },
        }
    }

    /// A braced block `{ <statement> }`, which becomes a `Group` node.
    pub fn parse_block(&mut self) -> (r: Result<Tree, ParserError>)
        requires
            old(self).wf(),
            old(self).pos < old(self).stream@.len(),
        ensures
            final(self).wf(),
            final(self).stream@ == old(self).stream@,
            old(self).pos <= final(self).pos,
            final(self).pos <= final(self).stream@.len(),
            match r {
                Ok(t) => sp_block(old(self).stream@, old(self).pos as nat) == Ok::<
                    (TreeV, nat),
                    ParserError,
                >((tree_view(t), final(self).pos as nat)) && wf_tree(tree_view(t)) && old(
                    self,
                ).pos < final(self).pos && final(self).pos < final(self).stream@.len(),
                Err(e) => sp_block(old(self).stream@, old(self).pos as nat) == Err::<
                    (TreeV, nat),
                    ParserError,
                >(e),
            },
        decreases old(self).stream@.len() - old(self).pos, 2nat,
    {
        let ghost toks = self.stream@;
        let ghost pos0 = self.pos as nat;
        if self.expect(TokenType::LeftBrace) {
            self.advance();
            match self.parse_statment() {
                Err(e) => Err(e),
                Ok(inner) => {
                    let ghost p2 = self.pos as nat;
                    let c = self.peek();
                    if c.kind == TokenType::RightBrace {
                        self.advance();
                        let ghost inner_g = inner;
                        let children = one_child(inner);
                        proof {
                            lemma_view_one(Op::Group, inner_g, children);
                            assert(step_to(p2, pos0 + 2, toks.len()) == p2);
                        }
                        Ok(Tree::NonTerm(Op::Group, children))
                    } else {
                        proof {
                            assert(step_to(p2, pos0 + 2, toks.len()) == p2);
                        }
                        Err(ParserError {
                            kind: ParseErrorKind::MissingDelimiter {
                                delimiter: TokenType::RightBrace,
                            },
                            span: c.span,
                        })
                    }
                },
            }
        } else {
            let c = self.peek();
            Err(ParserError {
                kind: ParseErrorKind::MissingDelimiter { delimiter: TokenType::LeftBrace },
                span: c.span,
            })
        }
    }

    /// The comma-separated parameter list of a function declaration,
    /// entered after the opening `(`; `acc` carries the parameters already
    /// parsed.
    fn parse_params(&mut self, acc: Vec<Tree>) -> (r: Result<Vec<Tree>, ParserError>)
        requires
            old(self).wf(),
            old(self).pos < old(self).stream@.len(),
            forall|i: int| 0 <= i < acc@.len() ==> wf_tree(tree_view(#[trigger] acc@[i])),
        ensures
            final(self).wf(),
            final(self).stream@ == old(self).stream@,
            old(self).pos <= final(self).pos,
            final(self).pos <= final(self).stream@.len(),
            match r {
                Ok(v) => sp_params(old(self).stream@, old(self).pos as nat, trees_view(acc@))
                    == Ok::<(Seq<TreeV>, nat), ParserError>(
                    (trees_view(v@), final(self).pos as nat),
                ) && (forall|i: int| 0 <= i < v@.len() ==> wf_tree(tree_view(#[trigger] v@[i])))
                    && old(self).pos < final(self).pos
                    && final(self).pos < final(self).stream@.len(),
                Err(e) => sp_params(old(self).stream@, old(self).pos as nat, trees_view(acc@))
                    == Err::<(Seq<TreeV>, nat), ParserError>(e),
            },
        decreases old(self).stream@.len() - old(self).pos, 2nat,
    {
        let ghost toks = self.stream@;
        let ghost pos0 = self.pos as nat;
        if self.expect(TokenType::RightParen) {
            self.advance();
            return Ok(acc);
        }
        match self.parse_expr(0) {
            Err(e) => Err(e),
            Ok(param) => {
                let ghost p2 = self.pos as nat;
                let c = self.peek();
                if c.kind == TokenType::Comma {
                    self.advance();
                    let ghost param_g = param;
                    let ghost acc_v = acc@;
                    let mut acc2 = acc;
                    acc2.push(param);
                    proof {
                        assert(step_to(p2, pos0 + 1, toks.len()) == p2);
                        assert(acc2@.drop_last() =~= acc_v);
                        assert(trees_view(acc2@) == trees_view(acc_v).push(tree_view(param_g)));
                        lemma_trees_view(acc_v);
                        assert(trees_view(acc2@) =~= trees_view(acc_v) + seq![tree_view(param_g)]);
                    }
                    self.parse_params(acc2)
                } else if c.kind == TokenType::RightParen {
                    self.advance();
                    let ghost param_g = param;
                    let ghost acc_v = acc@;
                    let mut acc2 = acc;
                    acc2.push(param);
                    proof {
                        assert(step_to(p2, pos0 + 1, toks.len()) == p2);
                        assert(acc2@.drop_last() =~= acc_v);
                        assert(trees_view(acc2@) == trees_view(acc_v).push(tree_view(param_g)));
                        lemma_trees_view(acc_v);
                        assert(trees_view(acc2@) =~= trees_view(acc_v) + seq![tree_view(param_g)]);
                    }
                    Ok(acc2)
                } else {
                    proof {
                        assert(step_to(p2, pos0 + 1, toks.len()) == p2);
                    }
                    Err(ParserError {
                        kind: ParseErrorKind::UnexpectedToken { expected: TokenType::RightParen },
                        span: c.span,
                    })
                }
            },
        }
    }

    /// The rest of a `var` declaration, entered just past the keyword:
    /// `<ident> = <expr> ;`.
    fn parse_var_tail(&mut self) -> (r: Result<Tree, ParserError>)
        requires
            old(self).wf(),
            1 <= old(self).pos < old(self).stream@.len(),
            old(self).stream@[old(self).pos - 1].kind == TokenType::Var,
        ensures
            final(self).wf(),
            final(self).stream@ == old(self).stream@,
            old(self).pos <= final(self).pos,
            final(self).pos <= final(self).stream@.len(),
            match r {
                Ok(t) => sp_statement(old(self).stream@, (old(self).pos - 1) as nat) == Ok::<
                    (TreeV, nat),
                    ParserError,
                >((tree_view(t), final(self).pos as nat)) && wf_tree(tree_view(t)) && old(
                    self,
                ).pos < final(self).pos && final(self).pos < final(self).stream@.len(),
                Err(e) => sp_statement(old(self).stream@, (old(self).pos - 1) as nat) == Err::<
                    (TreeV, nat),
                    ParserError,
                >(e),
            },
        decreases old(self).stream@.len() - old(self).pos, 2nat,
    {
        if self.expect(TokenType::Identifier) {
            let name = self.advance();
            if self.expect(TokenType::Equal) {
                self.advance();
                match self.parse_expr(0) {
                    Err(e) => Err(e),
                    Ok(init) => {
                        if self.expect_semicolon() {
                            self.advance();
                            Ok(Tree::Var(name.span, Box::new(init)))
                        } else {
                            let c = self.peek();
                            Err(ParserError {
                                kind: ParseErrorKind::MissingPunctuation {
                                    punctuation: TokenType::Semicolon,
                                },
                                span: c.span,
                            })
                        }
                    },
                }
            } else {
                let c = self.peek();
                Err(ParserError {
                    kind: ParseErrorKind::MissingPunctuation { punctuation: TokenType::Equal },
                    span: c.span,
                })
            }
        } else {
            let c = self.peek();
            Err(ParserError {
                kind: ParseErrorKind::UnexpectedToken { expected: TokenType::Identifier },
                span: c.span,
            })
        }
    }

    /// The rest of a `fun` declaration, entered just past the keyword:
    /// `<ident> ( <param-list> ) <block>`.
    fn parse_fun_tail(&mut self) -> (r: Result<Tree, ParserError>)
        requires
            old(self).wf(),
            1 <= old(self).pos < old(self).stream@.len(),
            old(self).stream@[old(self).pos - 1].kind == TokenType::Fun,
        ensures
            final(self).wf(),
            final(self).stream@ == old(self).stream@,
            old(self).pos <= final(self).pos,
            final(self).pos <= final(self).stream@.len(),
            match r {
                Ok(t) => sp_statement(old(self).stream@, (old(self).pos - 1) as nat) == Ok::<
                    (TreeV, nat),
                    ParserError,
                >((tree_view(t), final(self).pos as nat)) && wf_tree(tree_view(t)) && old(
                    self,
                ).pos < final(self).pos && final(self).pos < final(self).stream@.len(),
                Err(e) => sp_statement(old(self).stream@, (old(self).pos - 1) as nat) == Err::<
                    (TreeV, nat),
                    ParserError,
                >(e),
            },
        decreases old(self).stream@.len() - old(self).pos, 2nat,
    {
        let ghost toks = self.stream@;
        let ghost pos0 = (self.pos - 1) as nat;
        if self.expect(TokenType::Identifier) {
            let name = self.advance();
            if self.expect(TokenType::LeftParen) {
                self.advance();
                match self.parse_params(Vec::new()) {
                    Err(e) => Err(e),
                    Ok(params) => {
                        let ghost p2 = self.pos as nat;
                        proof {
                            assert(step_to(p2, pos0 + 4, toks.len()) == p2);
                        }
                        match self.parse_block() {
                            Err(e) => Err(e),
                            Ok(body) => {
                                proof {
                                    lemma_trees_view(params@);
                                }
                                Ok(Tree::Fun {
                                    name: name.span,
                                    parameters: params,
                                    body: Box::new(body),
                                })
                            },
                        }
                    },
                }
            } else {
                let c = self.peek();
                Err(ParserError {
                    kind: ParseErrorKind::MissingDelimiter { delimiter: TokenType::LeftParen },
                    span: c.span,
                })
            }
        } else {
            let c = self.peek();
            Err(ParserError {
                kind: ParseErrorKind::UnexpectedToken { expected: TokenType::Identifier },
                span: c.span,
            })
        }
    }

    /// The rest of a `class` declaration, entered just past the keyword:
    /// `<ident> <block>`.
    fn parse_class_tail(&mut self) -> (r: Result<Tree, ParserError>)
        requires
            old(self).wf(),
            1 <= old(self).pos < old(self).stream@.len(),
            old(self).stream@[old(self).pos - 1].kind == TokenType::Class,
        ensures
            final(self).wf(),
            final(self).stream@ == old(self).stream@,
            old(self).pos <= final(self).pos,
            final(self).pos <= final(self).stream@.len(),
            match r {
                Ok(t) => sp_statement(old(self).stream@, (old(self).pos - 1) as nat) == Ok::<
                    (TreeV, nat),
                    ParserError,
                >((tree_view(t), final(self).pos as nat)) && wf_tree(tree_view(t)) && old(
                    self,
                ).pos < final(self).pos && final(self).pos < final(self).stream@.len(),
                Err(e) => sp_statement(old(self).stream@, (old(self).pos - 1) as nat) == Err::<
                    (TreeV, nat),
                    ParserError,
                >(e),
            },
        decreases old(self).stream@.len() - old(self).pos, 2nat,
    {
        if self.expect(TokenType::Identifier) {
            let name = self.advance();
            match self.parse_block() {
                Err(e) => Err(e),
                Ok(body) => {
                    let ghost body_g = body;
                    let children = two_children(Tree::Atom(Atom::Ident(name.span)), body);
                    proof {
                        lemma_view_two(
                            Op::Class,
                            Tree::Atom(Atom::Ident(name.span)),
                            body_g,
                            children,
                        );
                    }
                    Ok(Tree::NonTerm(Op::Class, children))
                },
            }
        } else {
            let c = self.peek();
            Err(ParserError {
                kind: ParseErrorKind::UnexpectedToken { expected: TokenType::Identifier },
                span: c.span,
            })
        }
    }

    /// The rest of an `if` or `while` statement, entered just past the
    /// keyword: `( <expr> ) <block>`.
    fn parse_cond_tail(&mut self) -> (r: Result<Tree, ParserError>)
        requires
            old(self).wf(),
            1 <= old(self).pos < old(self).stream@.len(),
            old(self).stream@[old(self).pos - 1].kind == TokenType::If || old(self).stream@[old(
                self,
            ).pos - 1].kind == TokenType::While,
        ensures
            final(self).wf(),
            final(self).stream@ == old(self).stream@,
            old(self).pos <= final(self).pos,
            final(self).pos <= final(self).stream@.len(),
            match r {
                Ok(t) => sp_statement(old(self).stream@, (old(self).pos - 1) as nat) == Ok::<
                    (TreeV, nat),
                    ParserError,
                >((tree_view(t), final(self).pos as nat)) && wf_tree(tree_view(t)) && old(
                    self,
                ).pos < final(self).pos && final(self).pos < final(self).stream@.len(),
                Err(e) => sp_statement(old(self).stream@, (old(self).pos - 1) as nat) == Err::<
                    (TreeV, nat),
                    ParserError,
                >(e),
            },
        decreases old(self).stream@.len() - old(self).pos, 2nat,
    {
        let ghost toks = self.stream@;
        let ghost pos0 = (self.pos - 1) as nat;
        let keyword = self.current();
        let label = if keyword.kind == TokenType::If {
            Op::If
        } else {
            Op::While
        };
        if self.expect(TokenType::LeftParen) {
            self.advance();
            match self.parse_expr(0) {
                Err(e) => Err(e),
                Ok(cond) => {
                    let ghost p2 = self.pos as nat;
                    let c = self.peek();
                    if c.kind == TokenType::RightParen {
                        self.advance();
                        proof {
                            assert(step_to(p2, pos0 + 3, toks.len()) == p2);
                        }
                        match self.parse_block() {
                            Err(e) => Err(e),
                            Ok(body) => {
                                let ghost cond_g = cond;
                                let ghost body_g = body;
                                let children = two_children(cond, body);
                                proof {
                                    lemma_view_two(label, cond_g, body_g, children);
                                }
                                Ok(Tree::NonTerm(label, children))
                            },
                        }
                    } else {
                        proof {
                            assert(step_to(p2, pos0 + 3, toks.len()) == p2);
                        }
                        Err(ParserError {
                            kind: ParseErrorKind::MissingDelimiter {
                                delimiter: TokenType::RightParen,
                            },
                            span: c.span,
                        })
                    }
                },
            }
        } else {
            let c = self.peek();
            Err(ParserError {
                kind: ParseErrorKind::MissingDelimiter { delimiter: TokenType::LeftParen },
                span: c.span,
            })
        }
    }

    /// The rest of a `for` statement, entered just past the keyword:
    /// `( <stmt> <expr> ; <expr> ) <block>`, where the init statement ends
    /// in its own `;`.
    #[verifier::rlimit(30)]
    fn parse_for_tail(&mut self) -> (r: Result<Tree, ParserError>)
        requires
            old(self).wf(),
            1 <= old(self).pos < old(self).stream@.len(),
            old(self).stream@[old(self).pos - 1].kind == TokenType::For,
        ensures
            final(self).wf(),
            final(self).stream@ == old(self).stream@,
            old(self).pos <= final(self).pos,
            final(self).pos <= final(self).stream@.len(),
            match r {
                Ok(t) => sp_statement(old(self).stream@, (old(self).pos - 1) as nat) == Ok::<
                    (TreeV, nat),
                    ParserError,
                >((tree_view(t), final(self).pos as nat)) && wf_tree(tree_view(t)) && old(
                    self,
                ).pos < final(self).pos && final(self).pos < final(self).stream@.len(),
                Err(e) => sp_statement(old(self).stream@, (old(self).pos - 1) as nat) == Err::<
                    (TreeV, nat),
                    ParserError,
                >(e),
            },
        decreases old(self).stream@.len() - old(self).pos, 2nat,
    {
        let ghost toks = self.stream@;
        let ghost pos0 = (self.pos - 1) as nat;
        if self.expect(TokenType::LeftParen) {
            self.advance();
            match self.parse_statment() {
                Err(e) => Err(e),
                Ok(init) => {
                    let ghost p2 = self.pos as nat;
                    proof {
                        assert(step_to(p2, pos0 + 3, toks.len()) == p2);
                    }
                    match self.parse_expr(0) {
                        Err(e) => Err(e),
                        Ok(cond) => {
                            let ghost p3 = self.pos as nat;
                            if self.expect_semicolon() {
                                self.advance();
                                proof {
                                    assert(step_to(p3, pos0 + 4, toks.len()) == p3);
                                }
                                match self.parse_expr(0) {
                                    Err(e) => Err(e),
                                    Ok(incr) => {
                                        let ghost p4 = self.pos as nat;
                                        let c = self.peek();
                                        if c.kind == TokenType::RightParen {
                                            self.advance();
                                            proof {
                                                assert(step_to(p4, p3 + 2, toks.len()) == p4);
                                            }
                                            match self.parse_block() {
                                                Err(e) => Err(e),
                                                Ok(body) => {
                                                    let ghost init_g = init;
                                                    let ghost cond_g = cond;
                                                    let ghost incr_g = incr;
                                                    let ghost body_g = body;
                                                    let children = four_children(
                                                        init,
                                                        cond,
                                                        incr,
                                                        body,
                                                    );
                                                    proof {
                                                        lemma_view_four(
                                                            Op::For,
                                                            init_g,
                                                            cond_g,
                                                            incr_g,
                                                            body_g,
                                                            children,
                                                        );
                                                    }
                                                    Ok(Tree::NonTerm(Op::For, children))
                                                },
                                            }
                                        } else {
                                            proof {
                                                assert(step_to(p4, p3 + 2, toks.len()) == p4);
                                            }
                                            Err(ParserError {
                                                kind: ParseErrorKind::MissingDelimiter {
                                                    delimiter: TokenType::RightParen,
                                                },
                                                span: c.span,
                                            })
                                        }
                                    },
                                }
                            } else {
                                let c = self.peek();
                                proof {
                                    assert(step_to(p3, pos0 + 4, toks.len()) == p3);
                                }
                                Err(ParserError {
                                    kind: ParseErrorKind::MissingPunctuation {
                                        punctuation: TokenType::Semicolon,
                                    },
                                    span: c.span,
                                })
                            }
                        },
                    }
                },
            }
        } else {
            let c = self.peek();
            Err(ParserError {
                kind: ParseErrorKind::MissingDelimiter { delimiter: TokenType::LeftParen },
                span: c.span,
            })
        }
    }

    /// The rest of a braced block statement, entered just past the `{`.
    fn parse_brace_tail(&mut self) -> (r: Result<Tree, ParserError>)
        requires
            old(self).wf(),
            1 <= old(self).pos < old(self).stream@.len(),
            old(self).stream@[old(self).pos - 1].kind == TokenType::LeftBrace,
        ensures
            final(self).wf(),
            final(self).stream@ == old(self).stream@,
            old(self).pos <= final(self).pos,
            final(self).pos <= final(self).stream@.len(),
            match r {
                Ok(t) => sp_statement(old(self).stream@, (old(self).pos - 1) as nat) == Ok::<
                    (TreeV, nat),
                    ParserError,
                >((tree_view(t), final(self).pos as nat)) && wf_tree(tree_view(t)) && old(
                    self,
                ).pos < final(self).pos && final(self).pos < final(self).stream@.len(),
                Err(e) => sp_statement(old(self).stream@, (old(self).pos - 1) as nat) == Err::<
                    (TreeV, nat),
                    ParserError,
                >(e),
            },
        decreases old(self).stream@.len() - old(self).pos, 4nat,
    {
        let ghost toks = self.stream@;
        let ghost pos0 = (self.pos - 1) as nat;
        match self.parse_statment() {
            Err(e) => Err(e),
            Ok(inner) => {
                let ghost p2 = self.pos as nat;
                let c = self.peek();
                if c.kind == TokenType::RightBrace {
                    self.advance();
                    let ghost inner_g = inner;
                    let children = one_child(inner);
                    proof {
                        lemma_view_one(Op::Group, inner_g, children);
                        assert(step_to(p2, pos0 + 2, toks.len()) == p2);
                    }
                    Ok(Tree::NonTerm(Op::Group, children))
                } else {
                    proof {
                        assert(step_to(p2, pos0 + 2, toks.len()) == p2);
                    }
                    Err(ParserError {
                        kind: ParseErrorKind::MissingDelimiter {
                            delimiter: TokenType::RightBrace,
                        },
                        span: c.span,
                    })
                }
            },
        }
    }

    /// Parse one statement, dispatched on its leading token, exactly as
    /// `sp_statement` describes: `print`, `var`, `fun`, `class`, `if`,
    /// `while`, `for`, a braced block, or `else`; any other leading token
    /// is a hard error that tells an expression-like token apart from one
    /// that cannot start anything.
    pub fn parse_statment(&mut self) -> (r: Result<Tree, ParserError>)
        requires
            old(self).wf(),
            old(self).pos < old(self).stream@.len(),
        ensures
            final(self).wf(),
            final(self).stream@ == old(self).stream@,
            old(self).pos <= final(self).pos,
            final(self).pos <= final(self).stream@.len(),
            match r {
                Ok(t) => sp_statement(old(self).stream@, old(self).pos as nat) == Ok::<
                    (TreeV, nat),
                    ParserError,
                >((tree_view(t), final(self).pos as nat)) && wf_tree(tree_view(t)) && old(
                    self,
                ).pos < final(self).pos && final(self).pos < final(self).stream@.len(),
                Err(e) => sp_statement(old(self).stream@, old(self).pos as nat) == Err::<
                    (TreeV, nat),
                    ParserError,
                >(e),
            },
        decreases old(self).stream@.len() - old(self).pos, 3nat,
    {
        let t = self.advance();
        match t.kind {
            TokenType::Print => self.parse_print(),
            TokenType::Var => self.parse_var_tail(),
            TokenType::Fun => self.parse_fun_tail(),
            TokenType::Class => self.parse_class_tail(),
            TokenType::If | TokenType::While => self.parse_cond_tail(),
            TokenType::For => self.parse_for_tail(),
            TokenType::LeftBrace => self.parse_brace_tail(),
            TokenType::Else => {
                match self.parse_statment() {
                    Err(e) => Err(e),
                    Ok(inner) => {
                        let ghost inner_g = inner;
                        let children = one_child(inner);
                        proof {
                            lemma_view_one(Op::Else, inner_g, children);
                        }
                        Ok(Tree::NonTerm(Op::Else, children))
                    },
                }
            },
            _ => {
                let like_expr = starts_expression(t.kind);
                Err(ParserError {
                    kind: ParseErrorKind::ExpectedStatementStart {
                        looks_like_expression: like_expr,
                    },
                    span: t.span,
                })
            },
        }
    }
}

/// What parsing a whole source text as one expression yields: the first
/// lexical error, or the first structural error, or the expression tree.
pub open spec fn spec_parse_expression(code: Seq<u8>) -> Result<TreeV, Diagnostic> {
    match scan_from(code, 0) {
        Err(e) => Err(Diagnostic::Lex(e)),
        Ok(toks) => match sp_expr(toks, 0, 0) {
            Err(e) => Err(Diagnostic::Parse(e)),
            Ok((t, _)) => Ok(t),
        },
    }
}

/// Scan and parse a source text as one expression.
pub fn parse_expression(code: &[u8]) -> (r: Result<Tree, Diagnostic>)
    requires
        code@.len() < usize::MAX,
    ensures
        match r {
            Ok(t) => spec_parse_expression(code@) == Ok::<TreeV, Diagnostic>(tree_view(t))
                && wf_tree(tree_view(t)) && tree_spans_in(tree_view(t), code@.len()),
            Err(e) => spec_parse_expression(code@) == Err::<TreeV, Diagnostic>(e),
        },
{
    proof {
        lemma_parse_spans_in_source(code@);
    }
    match Parser::new(code) {
        Err(e) => Err(Diagnostic::Lex(e)),
        Ok(mut parser) => {
            match parser.parse_expr(0) {
                Err(e) => Err(Diagnostic::Parse(e)),
                Ok(t) => Ok(t),
            }
        },
    }
}

/// What parsing a whole source text as one statement yields.
pub open spec fn spec_parse_statement(code: Seq<u8>) -> Result<TreeV, Diagnostic> {
    match scan_from(code, 0) {
        Err(e) => Err(Diagnostic::Lex(e)),
        Ok(toks) => match sp_statement(toks, 0) {
            Err(e) => Err(Diagnostic::Parse(e)),
            Ok((t, _)) => Ok(t),
        },
    }
}

/// Scan and parse a source text as one statement.
pub fn parse_statement(code: &[u8]) -> (r: Result<Tree, Diagnostic>)
    requires
        code@.len() < usize::MAX,
    ensures
        match r {
            Ok(t) => spec_parse_statement(code@) == Ok::<TreeV, Diagnostic>(tree_view(t))
                && wf_tree(tree_view(t)) && tree_spans_in(tree_view(t), code@.len()),
            Err(e) => spec_parse_statement(code@) == Err::<TreeV, Diagnostic>(e),
        },
{
    proof {
        lemma_parse_spans_in_source(code@);
    }
    match Parser::new(code) {
        Err(e) => Err(Diagnostic::Lex(e)),
        Ok(mut parser) => {
            match parser.parse_statment() {
                Err(e) => Err(Diagnostic::Parse(e)),
                Ok(t) => Ok(t),
            }
        },
    }
}


/// Every span in a tree the front end yields lies inside the source it
/// was parsed from: the scanner only makes spans within the source, and
/// the parser only passes token spans into the tree.
pub proof fn lemma_parse_spans_in_source(code: Seq<u8>)
    requires
        code.len() <= usize::MAX,
    ensures
        spec_parse_expression(code) matches Ok(t) ==> tree_spans_in(t, code.len()),
        spec_parse_statement(code) matches Ok(t) ==> tree_spans_in(t, code.len()),
{
    lemma_scan_from(code, 0);
    match scan_from(code, 0) {
        Ok(toks) => {
            assert forall|i: int| 0 <= i < toks.len() implies span_in(
                #[trigger] toks[i].span,
                code.len(),
            ) by {
                assert(toks[i].span.end <= code.len());
            }
            lemma_spans_expr(toks, 0, 0, code.len());
            lemma_spans_statement(toks, 0, code.len());
        },
        Err(_) => {},
    }
}

} // verus!
