//! Recursive-descent parsing: tokens to an abstract syntax tree and the
//! set of local-variable names, in order of first occurrence.
//!
//! Grammar, highest level first; each level recurses into the next:
//!
//! ```text
//! program        := statement* until Eof
//! statement      := "{" statement* "}"
//!                 | "return" expression ";"
//!                 | "if" "(" expression ")" statement ("else" statement)?
//!                 | expression ";"
//! expression     := assignment
//! assignment     := equality ("=" assignment)?            right-associative
//! equality       := relational (("==" | "!=") relational)*
//! relational     := additive (("<" | "<=" | ">" | ">=") additive)*
//! additive       := multiplicative (("+" | "-") multiplicative)*
//! multiplicative := unary (("*" | "/") unary)*
//! unary          := "+" unary | "-" unary | primary
//! primary        := "(" expression ")" | identifier | integer-literal
//! ```
//!
//! `>` and `>=` have no node kind of their own: the operands are swapped
//! into the corresponding `<` / `<=` node. Unary minus on `x` becomes the
//! subtraction `0 - x`. Parsing fails at the first malformed construct.

use vstd::math::max;
use vstd::prelude::*;

use crate::node::{
    contains_name, distinct_names, extends_names, lemma_contains_name_extend,
    lemma_extends_refl, lemma_extends_trans, lemma_nodes_view, lemma_vars_declared_extend,
    lemma_vars_declared_seq_extend, lemma_vars_declared_seq_push, lemma_wf_stmt_seq_push,
    node_view, nodes_view, num_ifs, num_ifs_seq, vars_declared, vars_declared_seq, wf_expr,
    wf_stmt, wf_stmt_seq, Node, NodeKind, NodeV, Program,
};
use crate::token::{token_matches, Token, TokenV};

verus! {

/// What the parser expected and did not find.
#[derive(Debug, Clone, PartialEq)]
pub enum ParseErrorKind {
    /// A specific token was required; it carries that token.
    UnexpectedToken(Token),
    /// An integer literal was required.
    ExpectedNumber,
}

/// The mathematical value of a parse-failure cause.
pub enum ParseErrorKindV {
    UnexpectedToken(TokenV),
    ExpectedNumber,
}

impl View for ParseErrorKind {
    type V = ParseErrorKindV;

    open spec fn view(&self) -> ParseErrorKindV {
        match self {
            ParseErrorKind::UnexpectedToken(t) => ParseErrorKindV::UnexpectedToken(t@),
            ParseErrorKind::ExpectedNumber => ParseErrorKindV::ExpectedNumber,
        }
    }
}

/// A parse failure: the token position at which it was detected, and what
/// was expected there.
#[derive(Debug, Clone, PartialEq)]
pub struct ParseError {
    pub pos: usize,
    pub kind: ParseErrorKind,
}

/// The outcome of one spec-level production: the node it built, the
/// position after it, and the locals table it left behind — or the first
/// failure.
pub type SpecParsed = Result<(NodeV, int, Seq<Seq<char>>), (int, ParseErrorKindV)>;

/// The outcome of a spec-level statement list.
pub type SpecParsedList = Result<(Seq<NodeV>, int, Seq<Seq<char>>), (int, ParseErrorKindV)>;

/// `primary := "(" expression ")" | identifier | integer-literal`.
/// A first-seen identifier is appended to the locals.
pub open spec fn spec_primary(toks: Seq<TokenV>, pos: int, locals: Seq<Seq<char>>) -> SpecParsed
    decreases max(toks.len() - pos, 0), 8int,
{
    if pos < 0 || pos >= toks.len() {
        Err((pos, ParseErrorKindV::ExpectedNumber))
    } else {
        match toks[pos] {
            TokenV::LeftParen => match spec_expression(toks, pos + 1, locals) {
                Ok((n, p2, l2)) => {
                    if 0 <= p2 < toks.len() && toks[p2] is RightParen {
                        Ok((n, p2 + 1, l2))
                    } else {
                        Err((p2, ParseErrorKindV::UnexpectedToken(TokenV::RightParen)))
                    }
                },
                Err(e) => Err(e),
            },
            TokenV::Ident(name) => {
                let l2 = if contains_name(locals, name) {
                    locals
                } else {
                    locals.push(name)
                };
                Ok((NodeV::Var(name), pos + 1, l2))
            },
            TokenV::Num(v) => Ok((NodeV::Num(v), pos + 1, locals)),
            _ => Err((pos, ParseErrorKindV::ExpectedNumber)),
        }
    }
}

/// `unary := "+" unary | "-" unary | primary`; `-x` becomes `0 - x`.
pub open spec fn spec_unary(toks: Seq<TokenV>, pos: int, locals: Seq<Seq<char>>) -> SpecParsed
    decreases max(toks.len() - pos, 0), 12int,
{
    if 0 <= pos < toks.len() && toks[pos] is Plus {
        spec_unary(toks, pos + 1, locals)
    } else if 0 <= pos < toks.len() && toks[pos] is Minus {
        match spec_unary(toks, pos + 1, locals) {
            Ok((n, p2, l2)) => Ok(
                (NodeV::Sub(Box::new(NodeV::Num(0)), Box::new(n)), p2, l2),
            ),
            Err(e) => Err(e),
        }
    } else {
        spec_primary(toks, pos, locals)
    }
}

/// The `("*" unary | "/" unary)*` tail of a multiplicative expression,
/// folded left onto `acc`.
pub open spec fn spec_mul_tail(
    acc: NodeV,
    toks: Seq<TokenV>,
    pos: int,
    locals: Seq<Seq<char>>,
) -> SpecParsed
    decreases max(toks.len() - pos, 0), 15int,
{
    if 0 <= pos < toks.len() && (toks[pos] is Star || toks[pos] is Slash) {
        let star = toks[pos] is Star;
        match spec_unary(toks, pos + 1, locals) {
            Ok((rhs, p2, l2)) => {
                let combined = if star {
                    NodeV::Multiply(Box::new(acc), Box::new(rhs))
                } else {
                    NodeV::Div(Box::new(acc), Box::new(rhs))
                };
                // A successful operand always advances, so this guard,
                // needed for termination bookkeeping, is never false.
                if pos < p2 <= toks.len() {
                    spec_mul_tail(combined, toks, p2, l2)
                } else {
                    Ok((combined, p2, l2))
                }
            },
            Err(e) => Err(e),
        }
    } else {
        Ok((acc, pos, locals))
    }
}

/// `multiplicative := unary (("*" | "/") unary)*`.
pub open spec fn spec_mul(toks: Seq<TokenV>, pos: int, locals: Seq<Seq<char>>) -> SpecParsed
    decreases max(toks.len() - pos, 0), 16int,
{
    match spec_unary(toks, pos, locals) {
        Ok((n, p2, l2)) => {
            if pos < p2 <= toks.len() {
                spec_mul_tail(n, toks, p2, l2)
            } else {
                Ok((n, p2, l2))
            }
        },
        Err(e) => Err(e),
    }
}

/// The `(("+" | "-") multiplicative)*` tail of an additive expression.
pub open spec fn spec_add_tail(
    acc: NodeV,
    toks: Seq<TokenV>,
    pos: int,
    locals: Seq<Seq<char>>,
) -> SpecParsed
    decreases max(toks.len() - pos, 0), 19int,
{
    if 0 <= pos < toks.len() && (toks[pos] is Plus || toks[pos] is Minus) {
        let plus = toks[pos] is Plus;
        match spec_mul(toks, pos + 1, locals) {
            Ok((rhs, p2, l2)) => {
                let combined = if plus {
                    NodeV::Add(Box::new(acc), Box::new(rhs))
                } else {
                    NodeV::Sub(Box::new(acc), Box::new(rhs))
                };
                if pos < p2 <= toks.len() {
                    spec_add_tail(combined, toks, p2, l2)
                } else {
                    Ok((combined, p2, l2))
                }
            },
            Err(e) => Err(e),
        }
    } else {
        Ok((acc, pos, locals))
    }
}

/// `additive := multiplicative (("+" | "-") multiplicative)*`.
pub open spec fn spec_add(toks: Seq<TokenV>, pos: int, locals: Seq<Seq<char>>) -> SpecParsed
    decreases max(toks.len() - pos, 0), 20int,
{
    match spec_mul(toks, pos, locals) {
        Ok((n, p2, l2)) => {
            if pos < p2 <= toks.len() {
                spec_add_tail(n, toks, p2, l2)
            } else {
                Ok((n, p2, l2))
            }
        },
        Err(e) => Err(e),
    }
}

/// The `(("<" | "<=" | ">" | ">=") additive)*` tail of a relational
/// expression. For `>` and `>=` the freshly parsed right operand becomes
/// the left child of a `<` / `<=` node: the swap normalization.
pub open spec fn spec_rel_tail(
    acc: NodeV,
    toks: Seq<TokenV>,
    pos: int,
    locals: Seq<Seq<char>>,
) -> SpecParsed
    decreases max(toks.len() - pos, 0), 23int,
{
    if 0 <= pos < toks.len() && (toks[pos] is LeftAngleBracket || toks[pos] is LessThanOrEqual
        || toks[pos] is RightAngleBracket || toks[pos] is GreaterThanOrEqual) {
        let op = toks[pos];
        match spec_add(toks, pos + 1, locals) {
            Ok((rhs, p2, l2)) => {
                let combined = match op {
                    TokenV::LeftAngleBracket => NodeV::LessThan(Box::new(acc), Box::new(rhs)),
                    TokenV::LessThanOrEqual => NodeV::LessThanOrEqual(
                        Box::new(acc),
                        Box::new(rhs),
                    ),
                    TokenV::RightAngleBracket => NodeV::LessThan(Box::new(rhs), Box::new(acc)),
                    _ => NodeV::LessThanOrEqual(Box::new(rhs), Box::new(acc)),
                };
                if pos < p2 <= toks.len() {
                    spec_rel_tail(combined, toks, p2, l2)
                } else {
                    Ok((combined, p2, l2))
                }
            },
            Err(e) => Err(e),
        }
    } else {
        Ok((acc, pos, locals))
    }
}

/// `relational := additive (("<" | "<=" | ">" | ">=") additive)*`.
pub open spec fn spec_relational(toks: Seq<TokenV>, pos: int, locals: Seq<Seq<char>>) -> SpecParsed
    decreases max(toks.len() - pos, 0), 24int,
{
    match spec_add(toks, pos, locals) {
        Ok((n, p2, l2)) => {
            if pos < p2 <= toks.len() {
                spec_rel_tail(n, toks, p2, l2)
            } else {
                Ok((n, p2, l2))
            }
        },
        Err(e) => Err(e),
    }
}

/// The `(("==" | "!=") relational)*` tail of an equality expression.
pub open spec fn spec_eq_tail(
    acc: NodeV,
    toks: Seq<TokenV>,
    pos: int,
    locals: Seq<Seq<char>>,
) -> SpecParsed
    decreases max(toks.len() - pos, 0), 27int,
{
    if 0 <= pos < toks.len() && (toks[pos] is Equal || toks[pos] is NotEqual) {
        let eq = toks[pos] is Equal;
        match spec_relational(toks, pos + 1, locals) {
            Ok((rhs, p2, l2)) => {
                let combined = if eq {
                    NodeV::Equal(Box::new(acc), Box::new(rhs))
                } else {
                    NodeV::NotEqual(Box::new(acc), Box::new(rhs))
                };
                if pos < p2 <= toks.len() {
                    spec_eq_tail(combined, toks, p2, l2)
                } else {
                    Ok((combined, p2, l2))
                }
            },
            Err(e) => Err(e),
        }
    } else {
        Ok((acc, pos, locals))
    }
}

/// `equality := relational (("==" | "!=") relational)*`.
pub open spec fn spec_equality(toks: Seq<TokenV>, pos: int, locals: Seq<Seq<char>>) -> SpecParsed
    decreases max(toks.len() - pos, 0), 28int,
{
    match spec_relational(toks, pos, locals) {
        Ok((n, p2, l2)) => {
            if pos < p2 <= toks.len() {
                spec_eq_tail(n, toks, p2, l2)
            } else {
                Ok((n, p2, l2))
            }
        },
        Err(e) => Err(e),
    }
}

/// `assignment := equality ("=" assignment)?` — right-associative;
/// assignment is an expression.
pub open spec fn spec_assign(toks: Seq<TokenV>, pos: int, locals: Seq<Seq<char>>) -> SpecParsed
    decreases max(toks.len() - pos, 0), 30int,
{
    match spec_equality(toks, pos, locals) {
        Ok((lhs, p2, l2)) => {
            if pos <= p2 < toks.len() && toks[p2] is Assign {
                match spec_assign(toks, p2 + 1, l2) {
                    Ok((rhs, p3, l3)) => Ok(
                        (NodeV::Assign(Box::new(lhs), Box::new(rhs)), p3, l3),
                    ),
                    Err(e) => Err(e),
                }
            } else {
                Ok((lhs, p2, l2))
            }
        },
        Err(e) => Err(e),
    }
}

/// `expression := assignment`.
pub open spec fn spec_expression(toks: Seq<TokenV>, pos: int, locals: Seq<Seq<char>>) -> SpecParsed
    decreases max(toks.len() - pos, 0), 32int,
{
    spec_assign(toks, pos, locals)
}

/// `expression ";"`, evaluated for effect.
pub open spec fn spec_expression_statement(
    toks: Seq<TokenV>,
    pos: int,
    locals: Seq<Seq<char>>,
) -> SpecParsed
    decreases max(toks.len() - pos, 0), 34int,
{
    match spec_expression(toks, pos, locals) {
        Ok((e, p2, l2)) => {
            if 0 <= p2 < toks.len() && toks[p2] is Semicolon {
                Ok((NodeV::ExpressionStatement(Box::new(e)), p2 + 1, l2))
            } else {
                Err((p2, ParseErrorKindV::UnexpectedToken(TokenV::Semicolon)))
            }
        },
        Err(e) => Err(e),
    }
}

/// `"return" expression ";"`, with the keyword at `pos` already matched.
pub open spec fn spec_return_stmt(toks: Seq<TokenV>, pos: int, locals: Seq<Seq<char>>) -> SpecParsed
    decreases max(toks.len() - pos, 0), 35int,
{
    match spec_expression(toks, pos + 1, locals) {
        Ok((e, p2, l2)) => {
            if 0 <= p2 < toks.len() && toks[p2] is Semicolon {
                Ok((NodeV::Return(Box::new(e)), p2 + 1, l2))
            } else {
                Err((p2, ParseErrorKindV::UnexpectedToken(TokenV::Semicolon)))
            }
        },
        Err(e) => Err(e),
    }
}

/// `"if" "(" expression ")" statement ("else" statement)?`, with the
/// keyword standing at `pos`.
pub open spec fn spec_if_stmt(toks: Seq<TokenV>, pos: int, locals: Seq<Seq<char>>) -> SpecParsed
    decreases max(toks.len() - pos, 0), 35int,
{
    if pos + 1 < toks.len() && toks[pos + 1] is LeftParen {
        match spec_expression(toks, pos + 2, locals) {
            Ok((cond, p2, l2)) => {
                if 0 <= p2 < toks.len() && toks[p2] is RightParen && pos < p2 {
                    match spec_statement(toks, p2 + 1, l2) {
                        Ok((then, p3, l3)) => {
                            if 0 <= p3 < toks.len() && toks[p3] is Else && pos < p3 {
                                match spec_statement(toks, p3 + 1, l3) {
                                    Ok((els, p4, l4)) => Ok(
                                        (
                                            NodeV::If(
                                                Box::new(cond),
                                                Box::new(then),
                                                Some(Box::new(els)),
                                            ),
                                            p4,
                                            l4,
                                        ),
                                    ),
                                    Err(e) => Err(e),
                                }
                            } else {
                                Ok((NodeV::If(Box::new(cond), Box::new(then), None), p3, l3))
                            }
                        },
                        Err(e) => Err(e),
                    }
                } else {
                    Err((p2, ParseErrorKindV::UnexpectedToken(TokenV::RightParen)))
                }
            },
            Err(e) => Err(e),
        }
    } else {
        Err((pos + 1, ParseErrorKindV::UnexpectedToken(TokenV::LeftParen)))
    }
}

/// `statement := block | "return" expression ";" | "if" ... | expression ";"`.
pub open spec fn spec_statement(toks: Seq<TokenV>, pos: int, locals: Seq<Seq<char>>) -> SpecParsed
    decreases max(toks.len() - pos, 0), 36int,
{
    if 0 <= pos < toks.len() && toks[pos] is Return {
        spec_return_stmt(toks, pos, locals)
    } else if 0 <= pos < toks.len() && toks[pos] is LeftBrace {
        match spec_stmt_list(toks, pos + 1, locals) {
            Ok((stmts, p2, l2)) => Ok((NodeV::Block(stmts), p2, l2)),
            Err(e) => Err(e),
        }
    } else if 0 <= pos < toks.len() && toks[pos] is If {
        spec_if_stmt(toks, pos, locals)
    } else {
        spec_expression_statement(toks, pos, locals)
    }
}

/// `statement*` until the closing `"}"`, which is consumed.
pub open spec fn spec_stmt_list(
    toks: Seq<TokenV>,
    pos: int,
    locals: Seq<Seq<char>>,
) -> SpecParsedList
    decreases max(toks.len() - pos, 0), 40int,
{
    if 0 <= pos < toks.len() && toks[pos] is RightBrace {
        Ok((Seq::empty(), pos + 1, locals))
    } else {
        match spec_statement(toks, pos, locals) {
            Ok((st, p2, l2)) => {
                if pos < p2 <= toks.len() {
                    match spec_stmt_list(toks, p2, l2) {
                        Ok((rest, p3, l3)) => Ok((seq![st] + rest, p3, l3)),
                        Err(e) => Err(e),
                    }
                } else {
                    Ok((seq![st], p2, l2))
                }
            },
            Err(e) => Err(e),
        }
    }
}

/// `program := statement*` until the `Eof` sentinel.
pub open spec fn spec_program(
    toks: Seq<TokenV>,
    pos: int,
    locals: Seq<Seq<char>>,
) -> SpecParsedList
    decreases max(toks.len() - pos, 0), 40int,
{
    if pos < 0 || pos >= toks.len() || toks[pos] is Eof {
        Ok((Seq::empty(), pos, locals))
    } else {
        match spec_statement(toks, pos, locals) {
            Ok((st, p2, l2)) => {
                if pos < p2 <= toks.len() {
                    match spec_program(toks, p2, l2) {
                        Ok((rest, p3, l3)) => Ok((seq![st] + rest, p3, l3)),
                        Err(e) => Err(e),
                    }
                } else {
                    Ok((seq![st], p2, l2))
                }
            },
            Err(e) => Err(e),
        }
    }
}

/// The parse of a whole token sequence: the top-level statements wrapped
/// in one implicit block, and the locals seen, in order of first
/// occurrence — or the first failure.
pub open spec fn spec_parse(toks: Seq<TokenV>) -> Result<
    (NodeV, Seq<Seq<char>>),
    (int, ParseErrorKindV),
> {
    match spec_program(toks, 0, Seq::empty()) {
        Ok((stmts, p, l)) => Ok((NodeV::Block(stmts), l)),
        Err(e) => Err(e),
    }
}

/// Consumes a token sequence front to back, building the syntax tree and
/// collecting local-variable names on their first occurrence.
pub struct Parser {
    pub tokens: Vec<Token>,
    pub cursor: usize,
    pub locals: Vec<String>,
}

/// What every successful production guarantees: the parser state moved
/// from `pre` to `post`, the spec-level production agrees, the cursor
/// advanced without passing the end, the locals table only grew at its
/// end and stayed duplicate-free, every variable of the node has a slot,
/// and at most one local was added per token consumed.
pub open spec fn parse_step_ok(pre: Parser, post: Parser, node: Node, sr: SpecParsed) -> bool {
    &&& sr == Ok::<(NodeV, int, Seq<Seq<char>>), (int, ParseErrorKindV)>(
        (node@, post.cursor as int, post.locals.deep_view()),
    )
    &&& post.tokens == pre.tokens
    &&& pre.cursor < post.cursor <= pre.tokens@.len()
    &&& extends_names(post.locals.deep_view(), pre.locals.deep_view())
    &&& (distinct_names(pre.locals.deep_view()) ==> distinct_names(post.locals.deep_view()))
    &&& vars_declared(node@, post.locals.deep_view())
    &&& post.locals@.len() - pre.locals@.len() <= post.cursor - pre.cursor
}

/// What every failing production guarantees: the spec-level production
/// fails the same way, and the token sequence is untouched.
pub open spec fn parse_step_err(pre: Parser, post: Parser, e: ParseError, sr: SpecParsed) -> bool {
    &&& sr == Err::<(NodeV, int, Seq<Seq<char>>), (int, ParseErrorKindV)>(
        (e.pos as int, e.kind@),
    )
    &&& post.tokens == pre.tokens
}

/// The statements of a block node; other nodes have none.
pub open spec fn block_stmts(n: NodeV) -> Seq<NodeV> {
    match n {
        NodeV::Block(stmts) => stmts,
        _ => Seq::empty(),
    }
}

/// What a successful statement list guarantees; `node` is the block that
/// wraps the parsed statements.
pub open spec fn parse_list_ok(pre: Parser, post: Parser, node: Node, sr: SpecParsedList) -> bool {
    &&& node@ matches NodeV::Block(_)
    &&& sr == Ok::<(Seq<NodeV>, int, Seq<Seq<char>>), (int, ParseErrorKindV)>(
        (block_stmts(node@), post.cursor as int, post.locals.deep_view()),
    )
    &&& post.tokens == pre.tokens
    &&& pre.cursor <= post.cursor
    &&& (post.cursor <= pre.tokens@.len() || post.cursor == pre.cursor)
    &&& extends_names(post.locals.deep_view(), pre.locals.deep_view())
    &&& (distinct_names(pre.locals.deep_view()) ==> distinct_names(post.locals.deep_view()))
    &&& vars_declared(node@, post.locals.deep_view())
    &&& wf_stmt(node@)
    &&& num_ifs(node@) <= post.cursor - pre.cursor
    &&& post.locals@.len() - pre.locals@.len() <= post.cursor - pre.cursor
}

/// What a failing statement list guarantees.
pub open spec fn parse_list_err(pre: Parser, post: Parser, e: ParseError, sr: SpecParsedList) -> bool {
    &&& sr == Err::<(Seq<NodeV>, int, Seq<Seq<char>>), (int, ParseErrorKindV)>(
        (e.pos as int, e.kind@),
    )
    &&& post.tokens == pre.tokens
}

/// Prepends a statement to the result of parsing the remaining list.
pub open spec fn cons_list(st: NodeV, sr: SpecParsedList) -> SpecParsedList {
    match sr {
        Ok((rest, p, l)) => Ok((seq![st] + rest, p, l)),
        Err(e) => Err(e),
    }
}

/// Splices already-parsed statements onto the result of parsing the rest
/// of the list.
pub open spec fn splice_list(prefix: Seq<NodeV>, sr: SpecParsedList) -> SpecParsedList {
    match sr {
        Ok((rest, p, l)) => Ok((prefix + rest, p, l)),
        Err(e) => Err(e),
    }
}

/// Moving a statement from the head of the rest onto the parsed prefix
/// leaves the spliced whole unchanged.
proof fn lemma_splice_list_step(prefix: Seq<NodeV>, st: NodeV, sr: SpecParsedList)
    ensures
        splice_list(prefix, cons_list(st, sr)) == splice_list(prefix.push(st), sr),
{
    match sr {
        Ok((rest, p, l)) => {
            assert(prefix + (seq![st] + rest) =~= prefix.push(st) + rest);
        },
        Err(_) => {},
    }
}

/// `num_ifs_seq` distributes over appending one statement.
proof fn lemma_num_ifs_seq_push(s: Seq<NodeV>, n: NodeV)
    ensures
        num_ifs_seq(s.push(n)) == num_ifs_seq(s) + num_ifs(n),
    decreases s.len(),
{
    assert(num_ifs_seq(s.push(n)) == num_ifs(s.push(n)[0]) + num_ifs_seq(s.push(n).skip(1)));
    if s.len() == 0 {
        assert(s.push(n).skip(1) =~= Seq::<NodeV>::empty());
        assert(s.push(n)[0] == n);
        assert(num_ifs_seq(s.push(n).skip(1)) == 0);
    } else {
        assert(s.push(n).skip(1) =~= s.skip(1).push(n));
        assert(s.push(n)[0] == s[0]);
        assert(num_ifs_seq(s) == num_ifs(s[0]) + num_ifs_seq(s.skip(1)));
        lemma_num_ifs_seq_push(s.skip(1), n);
    }
}

/// The statement predicates on a sequence with one statement put in
/// front.
proof fn lemma_stmt_seq_cons(st: NodeV, rest: Seq<NodeV>, l: Seq<Seq<char>>)
    ensures
        vars_declared_seq(seq![st] + rest, l) == (vars_declared(st, l) && vars_declared_seq(
            rest,
            l,
        )),
        wf_stmt_seq(seq![st] + rest) == (wf_stmt(st) && wf_stmt_seq(rest)),
        num_ifs_seq(seq![st] + rest) == num_ifs(st) + num_ifs_seq(rest),
{
    let c = seq![st] + rest;
    assert(c[0] == st);
    assert(c.skip(1) =~= rest);
    assert(vars_declared_seq(c, l) == (vars_declared(c[0], l) && vars_declared_seq(
        c.skip(1),
        l,
    )));
    assert(wf_stmt_seq(c) == (wf_stmt(c[0]) && wf_stmt_seq(c.skip(1))));
    assert(num_ifs_seq(c) == num_ifs(c[0]) + num_ifs_seq(c.skip(1)));
}

/// Membership of a name in the locals table, compared by characters.
fn locals_contains(locals: &Vec<String>, name: &String) -> (r: bool)
    ensures
        r == contains_name(locals.deep_view(), name@),
{
    let mut i: usize = 0;
    while i < locals.len()
        invariant
            0 <= i <= locals@.len(),
            forall|k: int| 0 <= k < i ==> locals.deep_view()[k] != name@,
        decreases locals@.len() - i,
    {
        if locals[i] == *name {
            assert(locals.deep_view()[i as int] == name@);
            return true;
        }
        i = i + 1;
    }
    false
}

impl Parser {
    /// A parser over `tokens`, at their start, with no locals yet.
    pub fn new(tokens: Vec<Token>) -> (p: Self)
        ensures
            p.tokens == tokens,
            p.cursor == 0,
            p.locals@.len() == 0,
    {
        Parser { tokens, cursor: 0, locals: Vec::new() }
    }

    /// The token under the cursor, if any.
    fn peek(&self) -> (r: Option<&Token>)
        ensures
            match r {
                Some(t) => self.cursor < self.tokens@.len() && *t == self.tokens@[
                    self.cursor as int
                ],
                None => self.cursor >= self.tokens@.len(),
            },
    {
        if self.cursor < self.tokens.len() {
            Some(&self.tokens[self.cursor])
        } else {
            None
        }
    }

    /// Advances over the next token if it equals `token`.
    fn consume(&mut self, token: &Token) -> (r: bool)
        ensures
            final(self).tokens == old(self).tokens,
            final(self).locals == old(self).locals,
            r == (old(self).cursor < old(self).tokens@.len()
                && old(self).tokens.deep_view()[old(self).cursor as int] == token@),
            r ==> final(self).cursor == old(self).cursor + 1,
            !r ==> final(self).cursor == old(self).cursor,
    {
        let m = match self.peek() {
            Some(t) => token_matches(t, token),
            None => false,
        };
        if m {
            assert(self.cursor < self.tokens.len());
            self.cursor = self.cursor + 1;
        }
        m
    }

    /// Demands that the next token equal `token` and advances over it;
    /// anything else is a parse failure at the cursor.
    fn expect(&mut self, token: Token) -> (r: Result<(), ParseError>)
        ensures
            final(self).tokens == old(self).tokens,
            final(self).locals == old(self).locals,
            match r {
                Ok(_) => {
                    &&& old(self).cursor < old(self).tokens@.len()
                    &&& old(self).tokens.deep_view()[old(self).cursor as int] == token@
                    &&& final(self).cursor == old(self).cursor + 1
                },
                Err(e) => {
                    &&& (old(self).cursor >= old(self).tokens@.len()
                        || old(self).tokens.deep_view()[old(self).cursor as int] != token@)
                    &&& final(self).cursor == old(self).cursor
                    &&& e.pos == old(self).cursor
                    &&& e.kind@ == ParseErrorKindV::UnexpectedToken(token@)
                },
            },
    {
        if self.consume(&token) {
            Ok(())
        } else {
            Err(ParseError { pos: self.cursor, kind: ParseErrorKind::UnexpectedToken(token) })
        }
    }

    /// Demands an integer literal, returning its value; anything else is
    /// a parse failure at the cursor.
    fn expect_number(&mut self) -> (r: Result<i32, ParseError>)
        ensures
            final(self).tokens == old(self).tokens,
            final(self).locals == old(self).locals,
            match r {
                Ok(v) => {
                    &&& old(self).cursor < old(self).tokens@.len()
                    &&& old(self).tokens.deep_view()[old(self).cursor as int] == TokenV::Num(v)
                    &&& final(self).cursor == old(self).cursor + 1
                },
                Err(e) => {
                    &&& (old(self).cursor >= old(self).tokens@.len() || !(old(
                        self,
                    ).tokens.deep_view()[old(self).cursor as int] is Num))
                    &&& final(self).cursor == old(self).cursor
                    &&& e.pos == old(self).cursor
                    &&& e.kind@ == ParseErrorKindV::ExpectedNumber
                },
            },
    {
        if self.cursor < self.tokens.len() {
            let v: Option<i32> = match &self.tokens[self.cursor] {
                Token::Num(n) => Some(*n),
                _ => None,
            };
            if let Some(n) = v {
                self.cursor = self.cursor + 1;
                return Ok(n);
            }
        }
        Err(ParseError { pos: self.cursor, kind: ParseErrorKind::ExpectedNumber })
    }
}

impl Parser {
    /// The mathematical values of the tokens.
    pub open spec fn toks(self) -> Seq<TokenV> {
        self.tokens.deep_view()
    }

    /// The cursor as a mathematical position.
    pub open spec fn pos(self) -> int {
        self.cursor as int
    }

    /// The mathematical values of the collected local names.
    pub open spec fn names(self) -> Seq<Seq<char>> {
        self.locals.deep_view()
    }

    /// `primary := "(" expression ")" | identifier | integer-literal`.
    /// A first-seen identifier is registered in the locals.
    #[verifier::rlimit(100)]
    fn primary(&mut self) -> (r: Result<Node, ParseError>)
        ensures
            match r {
                Ok(node) => parse_step_ok(
                    *old(self),
                    *final(self),
                    node,
                    spec_primary(old(self).toks(), old(self).pos(), old(self).names()),
                ) && wf_expr(node@),
                Err(e) => parse_step_err(
                    *old(self),
                    *final(self),
                    e,
                    spec_primary(old(self).toks(), old(self).pos(), old(self).names()),
                ),
            },
        decreases max(self.tokens@.len() - self.cursor, 0), 8int,
    {
        let ghost pre = *self;
        if self.cursor >= self.tokens.len() {
            return Err(ParseError { pos: self.cursor, kind: ParseErrorKind::ExpectedNumber });
        }
        if self.consume(&Token::LeftParen) {
            let node = match self.expression() {
                Ok(n) => n,
                Err(e) => return Err(e),
            };
            match self.expect(Token::RightParen) {
                Ok(_) => {},
                Err(e) => return Err(e),
            }
            return Ok(node);
        }
        let name_opt: Option<String> = match &self.tokens[self.cursor] {
            Token::Ident(s) => Some(s.clone()),
            _ => None,
        };
        if let Some(name) = name_opt {
            assert(self.cursor < self.tokens.len());
            self.cursor = self.cursor + 1;
            if !locals_contains(&self.locals, &name) {
                let ghost ldv = self.locals.deep_view();
                self.locals.push(name.clone());
                proof {
                    assert(self.locals.deep_view() =~= ldv.push(name@));
                    assert(self.locals.deep_view().subrange(0, ldv.len() as int) =~= ldv);
                    assert(self.locals.deep_view()[ldv.len() as int] == name@);
                    assert(contains_name(self.locals.deep_view(), name@));
                }
            } else {
                proof {
                    lemma_extends_refl(self.locals.deep_view());
                }
            }
            let node = Node { kind: NodeKind::Var(name) };
            return Ok(node);
        }
        proof {
            lemma_extends_refl(self.locals.deep_view());
        }
        match self.expect_number() {
            Ok(v) => Ok(Node { kind: NodeKind::Num(v) }),
            Err(e) => Err(e),
        }
    }

    /// `unary := "+" unary | "-" unary | primary`; unary minus on `x` is
    /// rewritten as the subtraction `0 - x`.
    fn unary(&mut self) -> (r: Result<Node, ParseError>)
        ensures
            match r {
                Ok(node) => parse_step_ok(
                    *old(self),
                    *final(self),
                    node,
                    spec_unary(old(self).toks(), old(self).pos(), old(self).names()),
                ) && wf_expr(node@),
                Err(e) => parse_step_err(
                    *old(self),
                    *final(self),
                    e,
                    spec_unary(old(self).toks(), old(self).pos(), old(self).names()),
                ),
            },
        decreases max(self.tokens@.len() - self.cursor, 0), 12int,
    {
        if self.consume(&Token::Plus) {
            return self.unary();
        }
        if self.consume(&Token::Minus) {
            let operand = match self.unary() {
                Ok(n) => n,
                Err(e) => return Err(e),
            };
            let node = Node {
                kind: NodeKind::Sub(Box::new(Node::new_num(0)), Box::new(operand)),
            };
            proof {
                assert(node@ == NodeV::Sub(Box::new(NodeV::Num(0)), Box::new(operand@)));
                assert(wf_expr(NodeV::Num(0)));
                assert(vars_declared(NodeV::Num(0), self.names()));
            }
            return Ok(node);
        }
        self.primary()
    }

    /// `multiplicative := unary (("*" | "/") unary)*` — left-associative.
    #[verifier::rlimit(100)]
    fn mul(&mut self) -> (r: Result<Node, ParseError>)
        ensures
            match r {
                Ok(node) => parse_step_ok(
                    *old(self),
                    *final(self),
                    node,
                    spec_mul(old(self).toks(), old(self).pos(), old(self).names()),
                ) && wf_expr(node@),
                Err(e) => parse_step_err(
                    *old(self),
                    *final(self),
                    e,
                    spec_mul(old(self).toks(), old(self).pos(), old(self).names()),
                ),
            },
        decreases max(self.tokens@.len() - self.cursor, 0), 16int,
    {
        let ghost pre = *self;
        let mut node = match self.unary() {
            Ok(n) => n,
            Err(e) => return Err(e),
        };
        loop
            invariant
                pre == *old(self),
                self.tokens == pre.tokens,
                pre.cursor < self.cursor <= self.tokens@.len(),
                spec_mul(pre.toks(), pre.pos(), pre.names()) == spec_mul_tail(
                    node@,
                    self.toks(),
                    self.pos(),
                    self.names(),
                ),
                extends_names(self.names(), pre.names()),
                distinct_names(pre.names()) ==> distinct_names(self.names()),
                vars_declared(node@, self.names()),
                wf_expr(node@),
                self.locals@.len() - pre.locals@.len() <= self.cursor - pre.cursor,
            decreases max(self.tokens@.len() - self.cursor, 0),
        {
            let ghost li = self.locals.deep_view();
            let ghost ci = self.cursor as int;
            if self.consume(&Token::Star) {
                let rhs = match self.unary() {
                    Ok(n) => n,
                    Err(e) => return Err(e),
                };
                proof {
                    lemma_vars_declared_extend(node@, li, self.names());
                    lemma_extends_trans(self.names(), li, pre.names());
                }
                node = Node { kind: NodeKind::Multiply(Box::new(node), Box::new(rhs)) };
            } else if self.consume(&Token::Slash) {
                let rhs = match self.unary() {
                    Ok(n) => n,
                    Err(e) => return Err(e),
                };
                proof {
                    lemma_vars_declared_extend(node@, li, self.names());
                    lemma_extends_trans(self.names(), li, pre.names());
                }
                node = Node { kind: NodeKind::Div(Box::new(node), Box::new(rhs)) };
            } else {
                return Ok(node);
            }
        }
    }

    /// `additive := multiplicative (("+" | "-") multiplicative)*`.
    #[verifier::rlimit(100)]
    fn add(&mut self) -> (r: Result<Node, ParseError>)
        ensures
            match r {
                Ok(node) => parse_step_ok(
                    *old(self),
                    *final(self),
                    node,
                    spec_add(old(self).toks(), old(self).pos(), old(self).names()),
                ) && wf_expr(node@),
                Err(e) => parse_step_err(
                    *old(self),
                    *final(self),
                    e,
                    spec_add(old(self).toks(), old(self).pos(), old(self).names()),
                ),
            },
        decreases max(self.tokens@.len() - self.cursor, 0), 20int,
    {
        let ghost pre = *self;
        let mut node = match self.mul() {
            Ok(n) => n,
            Err(e) => return Err(e),
        };
        loop
            invariant
                pre == *old(self),
                self.tokens == pre.tokens,
                pre.cursor < self.cursor <= self.tokens@.len(),
                spec_add(pre.toks(), pre.pos(), pre.names()) == spec_add_tail(
                    node@,
                    self.toks(),
                    self.pos(),
                    self.names(),
                ),
                extends_names(self.names(), pre.names()),
                distinct_names(pre.names()) ==> distinct_names(self.names()),
                vars_declared(node@, self.names()),
                wf_expr(node@),
                self.locals@.len() - pre.locals@.len() <= self.cursor - pre.cursor,
            decreases max(self.tokens@.len() - self.cursor, 0),
        {
            let ghost li = self.locals.deep_view();
            if self.consume(&Token::Plus) {
                let rhs = match self.mul() {
                    Ok(n) => n,
                    Err(e) => return Err(e),
                };
                proof {
                    lemma_vars_declared_extend(node@, li, self.names());
                    lemma_extends_trans(self.names(), li, pre.names());
                }
                node = Node { kind: NodeKind::Add(Box::new(node), Box::new(rhs)) };
            } else if self.consume(&Token::Minus) {
                let rhs = match self.mul() {
                    Ok(n) => n,
                    Err(e) => return Err(e),
                };
                proof {
                    lemma_vars_declared_extend(node@, li, self.names());
                    lemma_extends_trans(self.names(), li, pre.names());
                }
                node = Node { kind: NodeKind::Sub(Box::new(node), Box::new(rhs)) };
            } else {
                return Ok(node);
            }
        }
    }

    /// `relational := additive (("<" | "<=" | ">" | ">=") additive)*`.
    /// `>` and `>=` swap the operands into a `<` / `<=` node.
    #[verifier::rlimit(100)]
    #[verifier::spinoff_prover]
    fn relational(&mut self) -> (r: Result<Node, ParseError>)
        ensures
            match r {
                Ok(node) => parse_step_ok(
                    *old(self),
                    *final(self),
                    node,
                    spec_relational(old(self).toks(), old(self).pos(), old(self).names()),
                ) && wf_expr(node@),
                Err(e) => parse_step_err(
                    *old(self),
                    *final(self),
                    e,
                    spec_relational(old(self).toks(), old(self).pos(), old(self).names()),
                ),
            },
        decreases max(self.tokens@.len() - self.cursor, 0), 24int,
    {
        let ghost pre = *self;
        let node = match self.add() {
            Ok(n) => n,
            Err(e) => return Err(e),
        };
        let ghost mid = *self;
        let r = self.relational_tail(node);
        proof {
            if r is Ok {
                lemma_extends_trans(self.names(), mid.names(), pre.names());
            }
        }
        r
    }

    /// The comparison tail, folded left onto `acc`; consumes nothing when
    /// no comparison operator follows.
    #[verifier::rlimit(100)]
    fn relational_tail(&mut self, acc: Node) -> (r: Result<Node, ParseError>)
        requires
            wf_expr(acc@),
            vars_declared(acc@, old(self).names()),
        ensures
            match r {
                Ok(node) => {
                    &&& spec_rel_tail(acc@, old(self).toks(), old(self).pos(), old(self).names())
                        == Ok::<(NodeV, int, Seq<Seq<char>>), (int, ParseErrorKindV)>(
                        (node@, final(self).cursor as int, final(self).locals.deep_view()),
                    )
                    &&& final(self).tokens == old(self).tokens
                    &&& old(self).cursor <= final(self).cursor
                    &&& final(self).cursor <= old(self).tokens@.len() || final(self).cursor
                        == old(self).cursor
                    &&& extends_names(final(self).names(), old(self).names())
                    &&& (distinct_names(old(self).names()) ==> distinct_names(
                        final(self).names(),
                    ))
                    &&& vars_declared(node@, final(self).names())
                    &&& wf_expr(node@)
                    &&& final(self).locals@.len() - old(self).locals@.len()
                        <= final(self).cursor - old(self).cursor
                },
                Err(e) => {
                    &&& spec_rel_tail(acc@, old(self).toks(), old(self).pos(), old(self).names())
                        == Err::<(NodeV, int, Seq<Seq<char>>), (int, ParseErrorKindV)>(
                        (e.pos as int, e.kind@),
                    )
                    &&& final(self).tokens == old(self).tokens
                },
            },
        decreases max(self.tokens@.len() - self.cursor, 0), 23int,
    {
        let ghost pre = *self;
        let op: u8 = if self.consume(&Token::LeftAngleBracket) {
            0
        } else if self.consume(&Token::LessThanOrEqual) {
            1
        } else if self.consume(&Token::RightAngleBracket) {
            2
        } else if self.consume(&Token::GreaterThanOrEqual) {
            3
        } else {
            proof {
                lemma_extends_refl(self.names());
            }
            return Ok(acc);
        };
        let rhs = match self.add() {
            Ok(n) => n,
            Err(e) => return Err(e),
        };
        proof {
            lemma_vars_declared_extend(acc@, pre.names(), self.names());
        }
        let combined = if op == 0 {
            Node { kind: NodeKind::LessThan(Box::new(acc), Box::new(rhs)) }
        } else if op == 1 {
            Node { kind: NodeKind::LessThanOrEqual(Box::new(acc), Box::new(rhs)) }
        } else if op == 2 {
            Node { kind: NodeKind::LessThan(Box::new(rhs), Box::new(acc)) }
        } else {
            Node { kind: NodeKind::LessThanOrEqual(Box::new(rhs), Box::new(acc)) }
        };
        let ghost mid = *self;
        let result = match self.relational_tail(combined) {
            Ok(n) => n,
            Err(e) => return Err(e),
        };
        proof {
            lemma_extends_trans(self.names(), mid.names(), pre.names());
        }
        Ok(result)
    }

    /// `equality := relational (("==" | "!=") relational)*`.
    #[verifier::rlimit(100)]
    fn equality(&mut self) -> (r: Result<Node, ParseError>)
        ensures
            match r {
                Ok(node) => parse_step_ok(
                    *old(self),
                    *final(self),
                    node,
                    spec_equality(old(self).toks(), old(self).pos(), old(self).names()),
                ) && wf_expr(node@),
                Err(e) => parse_step_err(
                    *old(self),
                    *final(self),
                    e,
                    spec_equality(old(self).toks(), old(self).pos(), old(self).names()),
                ),
            },
        decreases max(self.tokens@.len() - self.cursor, 0), 28int,
    {
        let ghost pre = *self;
        let mut node = match self.relational() {
            Ok(n) => n,
            Err(e) => return Err(e),
        };
        loop
            invariant
                pre == *old(self),
                self.tokens == pre.tokens,
                pre.cursor < self.cursor <= self.tokens@.len(),
                spec_equality(pre.toks(), pre.pos(), pre.names()) == spec_eq_tail(
                    node@,
                    self.toks(),
                    self.pos(),
                    self.names(),
                ),
                extends_names(self.names(), pre.names()),
                distinct_names(pre.names()) ==> distinct_names(self.names()),
                vars_declared(node@, self.names()),
                wf_expr(node@),
                self.locals@.len() - pre.locals@.len() <= self.cursor - pre.cursor,
            decreases max(self.tokens@.len() - self.cursor, 0),
        {
            let ghost li = self.locals.deep_view();
            if self.consume(&Token::Equal) {
                let rhs = match self.relational() {
                    Ok(n) => n,
                    Err(e) => return Err(e),
                };
                proof {
                    lemma_vars_declared_extend(node@, li, self.names());
                    lemma_extends_trans(self.names(), li, pre.names());
                }
                node = Node { kind: NodeKind::Equal(Box::new(node), Box::new(rhs)) };
            } else if self.consume(&Token::NotEqual) {
                let rhs = match self.relational() {
                    Ok(n) => n,
                    Err(e) => return Err(e),
                };
                proof {
                    lemma_vars_declared_extend(node@, li, self.names());
                    lemma_extends_trans(self.names(), li, pre.names());
                }
                node = Node { kind: NodeKind::NotEqual(Box::new(node), Box::new(rhs)) };
            } else {
                return Ok(node);
            }
        }
    }

    /// `assignment := equality ("=" assignment)?` — right-associative.
    #[verifier::rlimit(100)]
    fn assign(&mut self) -> (r: Result<Node, ParseError>)
        ensures
            match r {
                Ok(node) => parse_step_ok(
                    *old(self),
                    *final(self),
                    node,
                    spec_assign(old(self).toks(), old(self).pos(), old(self).names()),
                ) && wf_expr(node@),
                Err(e) => parse_step_err(
                    *old(self),
                    *final(self),
                    e,
                    spec_assign(old(self).toks(), old(self).pos(), old(self).names()),
                ),
            },
        decreases max(self.tokens@.len() - self.cursor, 0), 30int,
    {
        let ghost pre = *self;
        let node = match self.equality() {
            Ok(n) => n,
            Err(e) => return Err(e),
        };
        let ghost li = self.locals.deep_view();
        if self.consume(&Token::Assign) {
            let rhs = match self.assign() {
                Ok(n) => n,
                Err(e) => return Err(e),
            };
            proof {
                lemma_vars_declared_extend(node@, li, self.names());
                lemma_extends_trans(self.names(), li, pre.names());
            }
            let combined = Node { kind: NodeKind::Assign(Box::new(node), Box::new(rhs)) };
            return Ok(combined);
        }
        Ok(node)
    }

    /// `expression := assignment`.
    fn expression(&mut self) -> (r: Result<Node, ParseError>)
        ensures
            match r {
                Ok(node) => parse_step_ok(
                    *old(self),
                    *final(self),
                    node,
                    spec_expression(old(self).toks(), old(self).pos(), old(self).names()),
                ) && wf_expr(node@),
                Err(e) => parse_step_err(
                    *old(self),
                    *final(self),
                    e,
                    spec_expression(old(self).toks(), old(self).pos(), old(self).names()),
                ),
            },
        decreases max(self.tokens@.len() - self.cursor, 0), 32int,
    {
        self.assign()
    }

    /// `expression ";"`: the expression is evaluated and its value
    /// discarded.
    fn expression_statement(&mut self) -> (r: Result<Node, ParseError>)
        ensures
            match r {
                Ok(node) => parse_step_ok(
                    *old(self),
                    *final(self),
                    node,
                    spec_expression_statement(
                        old(self).toks(),
                        old(self).pos(),
                        old(self).names(),
                    ),
                ) && wf_stmt(node@) && num_ifs(node@) == 0,
                Err(e) => parse_step_err(
                    *old(self),
                    *final(self),
                    e,
                    spec_expression_statement(
                        old(self).toks(),
                        old(self).pos(),
                        old(self).names(),
                    ),
                ),
            },
        decreases max(self.tokens@.len() - self.cursor, 0), 34int,
    {
        let node = match self.expression() {
            Ok(n) => n,
            Err(e) => return Err(e),
        };
        match self.expect(Token::Semicolon) {
            Ok(_) => {},
            Err(e) => return Err(e),
        }
        Ok(Node { kind: NodeKind::ExpressionStatement(Box::new(node)) })
    }

    /// `statement := block | "return" expression ";"
    /// | "if" "(" expression ")" statement ("else" statement)?
    /// | expression ";"`.
    #[verifier::rlimit(100)]
    #[verifier::spinoff_prover]
    fn statement(&mut self) -> (r: Result<Node, ParseError>)
        ensures
            match r {
                Ok(node) => parse_step_ok(
                    *old(self),
                    *final(self),
                    node,
                    spec_statement(old(self).toks(), old(self).pos(), old(self).names()),
                ) && wf_stmt(node@) && num_ifs(node@) <= final(self).cursor - old(self).cursor,
                Err(e) => parse_step_err(
                    *old(self),
                    *final(self),
                    e,
                    spec_statement(old(self).toks(), old(self).pos(), old(self).names()),
                ),
            },
        decreases max(self.tokens@.len() - self.cursor, 0), 36int,
    {
        let ghost pre = *self;
        if self.consume(&Token::Return) {
            let node = match self.expression() {
                Ok(n) => n,
                Err(e) => return Err(e),
            };
            match self.expect(Token::Semicolon) {
                Ok(_) => {},
                Err(e) => return Err(e),
            }
            return Ok(Node { kind: NodeKind::Return(Box::new(node)) });
        }
        if self.consume(&Token::LeftBrace) {
            return self.compound_statement();
        }
        if self.consume(&Token::If) {
            match self.expect(Token::LeftParen) {
                Ok(_) => {},
                Err(e) => return Err(e),
            }
            let cond = match self.expression() {
                Ok(n) => n,
                Err(e) => return Err(e),
            };
            let ghost lc = self.locals.deep_view();
            match self.expect(Token::RightParen) {
                Ok(_) => {},
                Err(e) => return Err(e),
            }
            let then = match self.statement() {
                Ok(n) => n,
                Err(e) => return Err(e),
            };
            let ghost lt = self.locals.deep_view();
            let els = if self.consume(&Token::Else) {
                match self.statement() {
                    Ok(n) => Some(Box::new(n)),
                    Err(e) => return Err(e),
                }
            } else {
                None
            };
            proof {
                lemma_extends_refl(lt);
                lemma_vars_declared_extend(cond@, lc, lt);
                lemma_vars_declared_extend(cond@, lt, self.names());
                lemma_vars_declared_extend(then@, lt, self.names());
                lemma_extends_trans(self.names(), lt, lc);
                lemma_extends_trans(self.names(), lc, pre.names());
            }
            return Ok(Node { kind: NodeKind::If(Box::new(cond), Box::new(then), els) });
        }
        self.expression_statement()
    }

    /// `statement*` until the closing `"}"`, entered with the opening
    /// `"{"` already consumed; yields the block node.
    #[verifier::rlimit(100)]
    fn compound_statement(&mut self) -> (r: Result<Node, ParseError>)
        ensures
            match r {
                Ok(node) => parse_list_ok(
                    *old(self),
                    *final(self),
                    node,
                    spec_stmt_list(old(self).toks(), old(self).pos(), old(self).names()),
                ),
                Err(e) => parse_list_err(
                    *old(self),
                    *final(self),
                    e,
                    spec_stmt_list(old(self).toks(), old(self).pos(), old(self).names()),
                ),
            },
        decreases max(self.tokens@.len() - self.cursor, 0), 40int,
    {
        let ghost pre = *self;
        let mut stmts: Vec<Node> = Vec::new();
        proof {
            lemma_extends_refl(self.locals.deep_view());
            assert(stmts.deep_view() =~= Seq::<NodeV>::empty());
        }
        loop
            invariant
                pre == *old(self),
                self.tokens == pre.tokens,
                pre.cursor <= self.cursor,
                self.cursor <= self.tokens@.len() || self.cursor == pre.cursor,
                spec_stmt_list(pre.toks(), pre.pos(), pre.names()) == splice_list(
                    stmts.deep_view(),
                    spec_stmt_list(self.toks(), self.pos(), self.names()),
                ),
                extends_names(self.names(), pre.names()),
                distinct_names(pre.names()) ==> distinct_names(self.names()),
                vars_declared_seq(stmts.deep_view(), self.names()),
                wf_stmt_seq(stmts.deep_view()),
                num_ifs_seq(stmts.deep_view()) <= self.cursor - pre.cursor,
                self.locals@.len() - pre.locals@.len() <= self.cursor - pre.cursor,
            decreases max(self.tokens@.len() - self.cursor, 0),
        {
            let ghost li = self.locals.deep_view();
            let ghost dv = stmts.deep_view();
            if self.consume(&Token::RightBrace) {
                proof {
                    assert(dv + Seq::<NodeV>::empty() =~= dv);
                }
                let ghost sv = stmts@;
                let node = Node { kind: NodeKind::Block(stmts) };
                proof {
                    lemma_nodes_view(sv);
                    assert(nodes_view(sv) =~= dv);
                    assert(node@ == NodeV::Block(dv));
                    assert(vars_declared(NodeV::Block(dv), self.names())
                        == vars_declared_seq(dv, self.names()));
                    assert(wf_stmt(NodeV::Block(dv)) == wf_stmt_seq(dv));
                    assert(num_ifs(NodeV::Block(dv)) == num_ifs_seq(dv));
                }
                return Ok(node);
            }
            let st = match self.statement() {
                Ok(n) => n,
                Err(e) => return Err(e),
            };
            proof {
                lemma_splice_list_step(
                    dv,
                    st@,
                    spec_stmt_list(self.toks(), self.pos(), self.names()),
                );
                lemma_vars_declared_seq_extend(dv, li, self.names());
                lemma_extends_trans(self.names(), li, pre.names());
                lemma_num_ifs_seq_push(dv, st@);
            }
            stmts.push(st);
            proof {
                assert(stmts.deep_view() =~= dv.push(st@));
                lemma_vars_declared_seq_push(dv, st@, self.names());
                lemma_wf_stmt_seq_push(dv, st@);
            }
        }
    }

    /// `program := statement*` until the `Eof` sentinel; yields the
    /// implicit block that wraps the top-level statements.
    #[verifier::rlimit(100)]
    #[verifier::spinoff_prover]
    fn program(&mut self) -> (r: Result<Node, ParseError>)
        ensures
            match r {
                Ok(node) => parse_list_ok(
                    *old(self),
                    *final(self),
                    node,
                    spec_program(old(self).toks(), old(self).pos(), old(self).names()),
                ),
                Err(e) => parse_list_err(
                    *old(self),
                    *final(self),
                    e,
                    spec_program(old(self).toks(), old(self).pos(), old(self).names()),
                ),
            },
        decreases max(self.tokens@.len() - self.cursor, 0), 40int,
    {
        let stmts = match self.program_rest() {
            Ok(v) => v,
            Err(e) => return Err(e),
        };
        let ghost sv = stmts@;
        let ghost dv = stmts.deep_view();
        let node = Node { kind: NodeKind::Block(stmts) };
        proof {
            lemma_nodes_view(sv);
            assert(nodes_view(sv) =~= dv);
            assert(node@ == NodeV::Block(dv));
            assert(vars_declared(NodeV::Block(dv), self.names()) == vars_declared_seq(
                dv,
                self.names(),
            ));
            assert(wf_stmt(NodeV::Block(dv)) == wf_stmt_seq(dv));
            assert(num_ifs(NodeV::Block(dv)) == num_ifs_seq(dv));
        }
        Ok(node)
    }

    /// The top-level statements from the cursor to the `Eof` sentinel.
    #[verifier::rlimit(100)]
    fn program_rest(&mut self) -> (r: Result<Vec<Node>, ParseError>)
        ensures
            match r {
                Ok(stmts) => {
                    &&& spec_program(old(self).toks(), old(self).pos(), old(self).names())
                        == Ok::<(Seq<NodeV>, int, Seq<Seq<char>>), (int, ParseErrorKindV)>(
                        (stmts.deep_view(), final(self).cursor as int, final(self).names()),
                    )
                    &&& final(self).tokens == old(self).tokens
                    &&& old(self).cursor <= final(self).cursor
                    &&& final(self).cursor <= old(self).tokens@.len() || final(self).cursor
                        == old(self).cursor
                    &&& extends_names(final(self).names(), old(self).names())
                    &&& (distinct_names(old(self).names()) ==> distinct_names(
                        final(self).names(),
                    ))
                    &&& vars_declared_seq(stmts.deep_view(), final(self).names())
                    &&& wf_stmt_seq(stmts.deep_view())
                    &&& num_ifs_seq(stmts.deep_view()) <= final(self).cursor - old(self).cursor
                    &&& final(self).locals@.len() - old(self).locals@.len()
                        <= final(self).cursor - old(self).cursor
                },
                Err(e) => {
                    &&& spec_program(old(self).toks(), old(self).pos(), old(self).names())
                        == Err::<(Seq<NodeV>, int, Seq<Seq<char>>), (int, ParseErrorKindV)>(
                        (e.pos as int, e.kind@),
                    )
                    &&& final(self).tokens == old(self).tokens
                },
            },
        decreases max(self.tokens@.len() - self.cursor, 0), 38int,
    {
        let ghost pre = *self;
        let done = match self.peek() {
            Some(t) => matches!(t, Token::Eof),
            None => true,
        };
        if done {
            let empty: Vec<Node> = Vec::new();
            proof {
                lemma_extends_refl(self.names());
                assert(empty.deep_view() =~= Seq::<NodeV>::empty());
            }
            return Ok(empty);
        }
        let st = match self.statement() {
            Ok(n) => n,
            Err(e) => return Err(e),
        };
        let ghost mid = *self;
        let mut rest = match self.program_rest() {
            Ok(v) => v,
            Err(e) => return Err(e),
        };
        let ghost rdv = rest.deep_view();
        rest.insert(0, st);
        proof {
            assert(rest.deep_view() =~= seq![st@] + rdv);
            lemma_stmt_seq_cons(st@, rdv, self.names());
            lemma_vars_declared_extend(st@, mid.names(), self.names());
            lemma_extends_trans(self.names(), mid.names(), pre.names());
        }
        Ok(rest)
    }

    /// Parses the whole token sequence: the program body — its top-level
    /// statements wrapped in one implicit block — together with the
    /// local-variable names seen, in order of first occurrence and free
    /// of duplicates; or the first parse failure, with no partial output.
    pub fn parse(&mut self) -> (r: Result<(Node, Vec<String>), ParseError>)
        ensures
            final(self).tokens == old(self).tokens,
            match r {
                Ok((node, locals)) => {
                    &&& parse_list_ok(
                        *old(self),
                        *final(self),
                        node,
                        spec_program(old(self).toks(), old(self).pos(), old(self).names()),
                    )
                    &&& locals.deep_view() == final(self).names()
                    &&& (old(self).cursor == 0 && old(self).locals@.len() == 0) ==> (
                    spec_parse(old(self).toks()) == Ok::<
                        (NodeV, Seq<Seq<char>>),
                        (int, ParseErrorKindV),
                    >((node@, locals.deep_view())) && distinct_names(locals.deep_view())
                        && locals@.len() <= old(self).toks().len())
                    &&& vars_declared(node@, locals.deep_view())
                    &&& wf_stmt(node@)
                    &&& num_ifs(node@) <= old(self).toks().len()
                },
                Err(e) => (old(self).cursor == 0 && old(self).locals@.len() == 0)
                    ==> spec_parse(old(self).toks()) == Err::<
                    (NodeV, Seq<Seq<char>>),
                    (int, ParseErrorKindV),
                >((e.pos as int, e.kind@)),
            },
    {
        proof {
            if old(self).cursor == 0 && old(self).locals@.len() == 0 {
                assert(old(self).names() =~= Seq::<Seq<char>>::empty());
            }
        }
        match self.program() {
            Ok(node) => {
                let names = clone_locals(&self.locals);
                Ok((node, names))
            },
            Err(e) => Err(e),
        }
    }
}

/// A copy of the locals table, name for name.
pub(crate) fn clone_locals(v: &Vec<String>) -> (r: Vec<String>)
    ensures
        r.deep_view() == v.deep_view(),
        r@.len() == v@.len(),
{
    let mut r: Vec<String> = Vec::new();
    let mut i: usize = 0;
    while i < v.len()
        invariant
            0 <= i <= v@.len(),
            r@.len() == i,
            forall|k: int| 0 <= k < i ==> r.deep_view()[k] == v.deep_view()[k],
        decreases v@.len() - i,
    {
        let ghost rd = r.deep_view();
        let s = v[i].clone();
        r.push(s);
        proof {
            assert(r.deep_view() =~= rd.push(v.deep_view()[i as int]));
        }
        i = i + 1;
    }
    proof {
        assert(r.deep_view() =~= v.deep_view());
    }
    r
}

} // verus!
