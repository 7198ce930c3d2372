//! The recursive-descent parser. Its grammar is stated by the spec functions
//! `s_*` below: each reads tokens from a position and gives the parsed node and
//! the position after it, or the error at the first token that does not fit.
use vstd::prelude::*;
use crate::token::{Token, TokenKind, TokModel, toks_model, kind_tag, kind_text, model_text, lemma_model_text, tag_of, push_kind, tag_variable, tag_number, tag_string, tag_eof};
use crate::ast::{Type, UnaryOp, BinaryOp, Expr, Statement, Block, Param, FunctionDecl, Program, AExpr, AStmt, AParam, AFunc, AProgram, exprs_view, stmts_view, params_view, funcs_view};
use crate::text::{dec_text, push_str, push_dec};

verus! {

pub enum ParseErrorKind {
    /// A token of the given kind was expected.
    ExpectedToken(TokenKind),
    ExpectedIdentifier,
    ExpectedArraySize,
    ExpectedType,
    UnexpectedToken,
    ExpectedItem,
    /// The tokens ended without an end-of-input token.
    Incomplete,
}

/// A parse error: what went wrong, and the index of the token where it did.
pub struct ParseError {
    pub kind: ParseErrorKind,
    pub at: usize,
}

pub open spec fn perr(kind: ParseErrorKind, p: int) -> ParseError {
    ParseError { kind: kind, at: p as usize }
}

/// The token at `p` exists and has the kind of `k`.
pub open spec fn is_kind(toks: Seq<TokModel>, p: int, k: TokenKind) -> bool {
    0 <= p < toks.len() && toks[p].tag == kind_tag(k)
}

/// `p` indexes a token.
pub open spec fn in_range(toks: Seq<TokModel>, p: int) -> bool {
    0 <= p < toks.len()
}

/// `q` lies after `p` and indexes a token.
pub open spec fn advanced(toks: Seq<TokModel>, p: int, q: int) -> bool {
    p < q < toks.len()
}

/// The token at `p` must be of kind `k`; it is consumed.
pub open spec fn s_expect(toks: Seq<TokModel>, p: int, k: TokenKind) -> Result<int, ParseError> {
    if is_kind(toks, p, k) {
        Ok(p + 1)
    } else {
        Err(perr(ParseErrorKind::ExpectedToken(k), p))
    }
}

/// An identifier.
pub open spec fn s_ident(toks: Seq<TokModel>, p: int) -> Result<(Seq<char>, int), ParseError> {
    if !in_range(toks, p) {
        Err(perr(ParseErrorKind::Incomplete, p))
    } else {
        if toks[p].tag == tag_variable() {
            Ok((toks[p].text, p + 1))
        } else {
            Err(perr(ParseErrorKind::ExpectedIdentifier, p))
        }
    }
}

/// A type: `i32`, `String` or `[type; number]`.
pub open spec fn s_type(toks: Seq<TokModel>, p: int) -> Result<(Type, int), ParseError>
    decreases toks.len() - p,
{
    if !in_range(toks, p) {
        Err(perr(ParseErrorKind::Incomplete, p))
    } else {
        let t = toks[p].tag;
        if t == kind_tag(TokenKind::I32Decl) {
            Ok((Type::I32, p + 1))
        } else if t == kind_tag(TokenKind::StringType) {
            Ok((Type::StringType, p + 1))
        } else if t == kind_tag(TokenKind::SquareBracketOpen) {
            match s_type(toks, p + 1) {
                Err(e) => Err(e),
                Ok((inner, p1)) => match s_expect(toks, p1, TokenKind::Semicolon) {
                    Err(e) => Err(e),
                    Ok(p2) => if !in_range(toks, p2) {
                        Err(perr(ParseErrorKind::Incomplete, p2))
                    } else if toks[p2].tag == tag_number() {
                        match s_expect(toks, p2 + 1, TokenKind::SquareBracketClose) {
                            Err(e) => Err(e),
                            Ok(p3) => Ok((Type::Array(Box::new(inner), toks[p2].num as usize), p3)),
                        }
                    } else {
                        Err(perr(ParseErrorKind::ExpectedArraySize, p2))
                    },
                },
            }
        } else {
            Err(perr(ParseErrorKind::ExpectedType, p))
        }
    }
}

/// The binary operator that a token stands for at a level of precedence, from
/// 0 (`||`, loosest) to 8 (`*`, `/`, `%`, tightest).
pub open spec fn level_op(level: nat, t: nat) -> Option<BinaryOp> {
    if level == 0 && t == kind_tag(TokenKind::OpOr) {
        Some(BinaryOp::Or)
    } else if level == 1 && t == kind_tag(TokenKind::OpAnd) {
        Some(BinaryOp::And)
    } else if level == 2 && t == kind_tag(TokenKind::OpBitOr) {
        Some(BinaryOp::BitOr)
    } else if level == 3 && t == kind_tag(TokenKind::OpXor) {
        Some(BinaryOp::Xor)
    } else if level == 4 && t == kind_tag(TokenKind::OpBitAnd) {
        Some(BinaryOp::BitAnd)
    } else if level == 5 && t == kind_tag(TokenKind::OpEq) {
        Some(BinaryOp::Eq)
    } else if level == 5 && t == kind_tag(TokenKind::OpNotEq) {
        Some(BinaryOp::NotEq)
    } else if level == 6 && t == kind_tag(TokenKind::OpLessThan) {
        Some(BinaryOp::Less)
    } else if level == 6 && t == kind_tag(TokenKind::OpLessOrEq) {
        Some(BinaryOp::LessEq)
    } else if level == 6 && t == kind_tag(TokenKind::OpGreaterThan) {
        Some(BinaryOp::Greater)
    } else if level == 6 && t == kind_tag(TokenKind::OpGreaterOrEq) {
        Some(BinaryOp::GreaterEq)
    } else if level == 7 && t == kind_tag(TokenKind::OpAdd) {
        Some(BinaryOp::Add)
    } else if level == 7 && t == kind_tag(TokenKind::OpSub) {
        Some(BinaryOp::Sub)
    } else if level == 8 && t == kind_tag(TokenKind::OpMul) {
        Some(BinaryOp::Mul)
    } else if level == 8 && t == kind_tag(TokenKind::OpDiv) {
        Some(BinaryOp::Div)
    } else if level == 8 && t == kind_tag(TokenKind::OpRem) {
        Some(BinaryOp::Rem)
    } else {
        None
    }
}

/// An expression.
pub open spec fn s_expr(toks: Seq<TokModel>, p: int) -> Result<(AExpr, int), ParseError>
    decreases toks.len() - p, 30nat,
{
    s_binary(toks, 0, p)
}

/// An operand of a level: the next tighter level, or a unary expression.
pub open spec fn s_operand(toks: Seq<TokModel>, level: nat, p: int) -> Result<(AExpr, int), ParseError>
    decreases toks.len() - p, 20 - level, 1nat,
{
    if level > 8 {
        Err(perr(ParseErrorKind::Incomplete, p))
    } else if level == 8 {
        s_unary(toks, p)
    } else {
        s_binary(toks, level + 1, p)
    }
}

/// A chain of operands of a level joined by its operators, grouped to the left.
pub open spec fn s_binary(toks: Seq<TokModel>, level: nat, p: int) -> Result<(AExpr, int), ParseError>
    decreases toks.len() - p, 20 - level, 2nat,
{
    if level > 8 || !in_range(toks, p) {
        Err(perr(ParseErrorKind::Incomplete, p))
    } else {
        match s_operand(toks, level, p) {
            Err(e) => Err(e),
            Ok((left, q)) => if !advanced(toks, p, q) {
                Err(perr(ParseErrorKind::Incomplete, q))
            } else {
                s_binary_tail(toks, level, left, q)
            },
        }
    }
}

/// The rest of a chain of a level after its left part `left`.
pub open spec fn s_binary_tail(toks: Seq<TokModel>, level: nat, left: AExpr, q: int) -> Result<(AExpr, int), ParseError>
    decreases toks.len() - q, 0nat, 0nat,
{
    if level > 8 || !in_range(toks, q) {
        Err(perr(ParseErrorKind::Incomplete, q))
    } else {
        match level_op(level, toks[q].tag) {
            None => Ok((left, q)),
            Some(op) => match s_operand(toks, level, q + 1) {
                Err(e) => Err(e),
                Ok((right, q2)) => if !advanced(toks, q, q2) {
                    Err(perr(ParseErrorKind::Incomplete, q2))
                } else {
                    s_binary_tail(toks, level, AExpr::Binary(Box::new(left), op, Box::new(right)), q2)
                },
            },
        }
    }
}

/// A unary expression: `-`, `!` or `~` before a unary expression, or a primary.
pub open spec fn s_unary(toks: Seq<TokModel>, p: int) -> Result<(AExpr, int), ParseError>
    decreases toks.len() - p, 10nat, 0nat,
{
    if !in_range(toks, p) {
        Err(perr(ParseErrorKind::Incomplete, p))
    } else {
        let t = toks[p].tag;
        let op = if t == kind_tag(TokenKind::OpSub) {
            Some(UnaryOp::Neg)
        } else if t == kind_tag(TokenKind::OpNot) {
            Some(UnaryOp::Not)
        } else if t == kind_tag(TokenKind::OpBitNot) {
            Some(UnaryOp::BitNot)
        } else {
            None
        };
        match op {
            Some(o) => match s_unary(toks, p + 1) {
                Err(e) => Err(e),
                Ok((e, q)) => Ok((AExpr::Unary(o, Box::new(e)), q)),
            },
            None => s_primary(toks, p),
        }
    }
}

/// A token of this kind can start a primary expression; on any other the
/// parser stops where it is.
pub open spec fn starts_primary(tag: nat) -> bool {
    tag == tag_number() || tag == tag_string() || tag == tag_variable() || tag == kind_tag(TokenKind::Out)
        || tag == kind_tag(TokenKind::In) || tag == kind_tag(TokenKind::RoundBracketOpen)
        || tag == kind_tag(TokenKind::SquareBracketOpen)
}

/// A primary expression: a number, a string, a name (perhaps called or
/// indexed; `out` and `in` count as names), a parenthesised expression or an
/// array literal.
pub open spec fn s_primary(toks: Seq<TokModel>, p: int) -> Result<(AExpr, int), ParseError>
    decreases toks.len() - p, 9nat, 0nat,
{
    if !in_range(toks, p) {
        Err(perr(ParseErrorKind::Incomplete, p))
    } else {
        let t = toks[p];
        if t.tag == tag_number() {
            Ok((AExpr::Number(t.num), p + 1))
        } else if t.tag == tag_string() {
            Ok((AExpr::Str(t.text), p + 1))
        } else if t.tag == tag_variable() {
            s_after_name(toks, t.text, p + 1)
        } else if t.tag == kind_tag(TokenKind::Out) {
            s_after_name(toks, "out"@, p + 1)
        } else if t.tag == kind_tag(TokenKind::In) {
            s_after_name(toks, "in"@, p + 1)
        } else if t.tag == kind_tag(TokenKind::RoundBracketOpen) {
            match s_expr(toks, p + 1) {
                Err(e) => Err(e),
                Ok((e, q)) => match s_expect(toks, q, TokenKind::RoundBracketClose) {
                    Err(err) => Err(err),
                    Ok(q2) => Ok((AExpr::Grouping(Box::new(e)), q2)),
                },
            }
        } else if t.tag == kind_tag(TokenKind::SquareBracketOpen) {
            s_list(toks, p, false, Seq::empty())
        } else {
            Err(perr(ParseErrorKind::UnexpectedToken, p))
        }
    }
}

/// `[expr]` after a name, starting at the opening bracket at `p`.
pub open spec fn s_access(toks: Seq<TokModel>, name: Seq<char>, p: int) -> Result<(AExpr, int), ParseError>
    decreases toks.len() - p, 11nat, 0nat,
{
    if !in_range(toks, p) {
        Err(perr(ParseErrorKind::Incomplete, p))
    } else {
        match s_expr(toks, p + 1) {
            Err(e) => Err(e),
            Ok((index, q)) => match s_expect(toks, q, TokenKind::SquareBracketClose) {
                Err(err) => Err(err),
                Ok(q2) => Ok((AExpr::ArrayAccess(name, Box::new(index)), q2)),
            },
        }
    }
}

/// What follows a name in an expression: a call, an index, or nothing.
pub open spec fn s_after_name(toks: Seq<TokModel>, name: Seq<char>, p: int) -> Result<(AExpr, int), ParseError>
    decreases toks.len() - p, 12nat, 0nat,
{
    if is_kind(toks, p, TokenKind::RoundBracketOpen) {
        s_list(toks, p, true, name)
    } else if is_kind(toks, p, TokenKind::SquareBracketOpen) {
        s_access(toks, name, p)
    } else {
        Ok((AExpr::Variable(name), p))
    }
}

/// The closing bracket of a call (`)`) or of an array literal (`]`).
pub open spec fn list_close(call: bool) -> TokenKind {
    if call { TokenKind::RoundBracketClose } else { TokenKind::SquareBracketClose }
}

/// A bracketed list of expressions separated by commas, starting at the
/// opening bracket at `p`: the arguments of a call of `name`, or the elements
/// of an array literal.
pub open spec fn s_list(toks: Seq<TokModel>, p: int, call: bool, name: Seq<char>) -> Result<(AExpr, int), ParseError>
    decreases toks.len() - p, 8nat, 0nat,
{
    let close = list_close(call);
    let items = if !in_range(toks, p) {
        Err(perr(ParseErrorKind::Incomplete, p))
    } else if is_kind(toks, p + 1, close) {
        Ok((Seq::<AExpr>::empty(), p + 1))
    } else {
        match s_expr(toks, p + 1) {
            Err(e) => Err(e),
            Ok((first, q)) => if !advanced(toks, p, q) {
                Err(perr(ParseErrorKind::Incomplete, q))
            } else {
                s_list_tail(toks, seq![first], q)
            },
        }
    };
    s_list_finish(toks, call, name, items)
}

/// The closing bracket after the items of a list, and the node they make.
pub open spec fn s_list_finish(toks: Seq<TokModel>, call: bool, name: Seq<char>, items: Result<(Seq<AExpr>, int), ParseError>) -> Result<(AExpr, int), ParseError> {
    match items {
        Err(e) => Err(e),
        Ok((elems, q)) => match s_expect(toks, q, list_close(call)) {
            Err(e) => Err(e),
            Ok(q2) => Ok((if call { AExpr::Call(name, elems) } else { AExpr::ArrayInit(elems) }, q2)),
        },
    }
}

/// More list items after `acc`, each after a comma.
pub open spec fn s_list_tail(toks: Seq<TokModel>, acc: Seq<AExpr>, q: int) -> Result<(Seq<AExpr>, int), ParseError>
    decreases toks.len() - q, 0nat, 0nat,
{
    if is_kind(toks, q, TokenKind::Comma) {
        match s_expr(toks, q + 1) {
            Err(e) => Err(e),
            Ok((e, q2)) => if !advanced(toks, q, q2) {
                Err(perr(ParseErrorKind::Incomplete, q2))
            } else {
                s_list_tail(toks, acc.push(e), q2)
            },
        }
    } else {
        Ok((acc, q))
    }
}

/// `let name: type = expr;`
pub open spec fn s_let(toks: Seq<TokModel>, p: int) -> Result<(AStmt, int), ParseError> {
    match s_expect(toks, p, TokenKind::Let) {
        Err(e) => Err(e),
        Ok(p1) => match s_ident(toks, p1) {
            Err(e) => Err(e),
            Ok((name, p2)) => match s_expect(toks, p2, TokenKind::Colon) {
                Err(e) => Err(e),
                Ok(p3) => match s_type(toks, p3) {
                    Err(e) => Err(e),
                    Ok((t, p4)) => match s_expect(toks, p4, TokenKind::Assign) {
                        Err(e) => Err(e),
                        Ok(p5) => match s_expr(toks, p5) {
                            Err(e) => Err(e),
                            Ok((v, p6)) => match s_expect(toks, p6, TokenKind::Semicolon) {
                                Err(e) => Err(e),
                                Ok(p7) => Ok((AStmt::Let(name, t, v), p7)),
                            },
                        },
                    },
                },
            },
        },
    }
}

/// `return;` or `return expr;`
pub open spec fn s_return(toks: Seq<TokModel>, p: int) -> Result<(AStmt, int), ParseError> {
    match s_expect(toks, p, TokenKind::Return) {
        Err(e) => Err(e),
        Ok(p1) => {
            let value = if is_kind(toks, p1, TokenKind::Semicolon) {
                Ok((None, p1))
            } else {
                match s_expr(toks, p1) {
                    Err(e) => Err(e),
                    Ok((v, q)) => Ok((Some(v), q)),
                }
            };
            match value {
                Err(e) => Err(e),
                Ok((v, q)) => match s_expect(toks, q, TokenKind::Semicolon) {
                    Err(e) => Err(e),
                    Ok(q2) => Ok((AStmt::Return(v), q2)),
                },
            }
        },
    }
}

/// `expr;`
pub open spec fn s_expr_stmt(toks: Seq<TokModel>, p: int) -> Result<(AStmt, int), ParseError> {
    match s_expr(toks, p) {
        Err(e) => Err(e),
        Ok((v, q)) => match s_expect(toks, q, TokenKind::Semicolon) {
            Err(e) => Err(e),
            Ok(q2) => Ok((AStmt::Expr(v), q2)),
        },
    }
}

/// A statement that starts with a name: `name = expr;`, `name[expr] = expr;`,
/// or else an expression statement read from the name again.
pub open spec fn s_assign_or_expr(toks: Seq<TokModel>, p: int) -> Result<(AStmt, int), ParseError> {
    if !in_range(toks, p) {
        Err(perr(ParseErrorKind::Incomplete, p))
    } else {
        if toks[p].tag == tag_variable() {
            {
                let name = toks[p].text;
                if p + 1 < toks.len() && is_kind(toks, p + 1, TokenKind::Assign) {
                    match s_expr(toks, p + 2) {
                        Err(e) => Err(e),
                        Ok((v, q)) => match s_expect(toks, q, TokenKind::Semicolon) {
                            Err(e) => Err(e),
                            Ok(q2) => Ok((AStmt::Assign(name, None, v), q2)),
                        },
                    }
                } else if p + 1 < toks.len() && is_kind(toks, p + 1, TokenKind::SquareBracketOpen) {
                    match s_expr(toks, p + 2) {
                        Err(e) => Err(e),
                        Ok((index, q)) => match s_expect(toks, q, TokenKind::SquareBracketClose) {
                            Err(e) => Err(e),
                            Ok(q2) => if is_kind(toks, q2, TokenKind::Assign) {
                                match s_expr(toks, q2 + 1) {
                                    Err(e) => Err(e),
                                    Ok((v, q3)) => match s_expect(toks, q3, TokenKind::Semicolon) {
                                        Err(e) => Err(e),
                                        Ok(q4) => Ok((AStmt::Assign(name, Some(index), v), q4)),
                                    },
                                }
                            } else {
                                s_expr_stmt(toks, p)
                            },
                        },
                    }
                } else {
                    s_expr_stmt(toks, p)
                }
            }
        } else {
            s_expr_stmt(toks, p)
        }
    }
}

/// A statement, chosen by its first token.
pub open spec fn s_stmt(toks: Seq<TokModel>, p: int) -> Result<(AStmt, int), ParseError>
    decreases toks.len() - p, 3nat,
{
    if !in_range(toks, p) {
        Err(perr(ParseErrorKind::Incomplete, p))
    } else {
        let t = toks[p].tag;
        if t == kind_tag(TokenKind::Let) {
            s_let(toks, p)
        } else if t == kind_tag(TokenKind::Return) {
            s_return(toks, p)
        } else if t == kind_tag(TokenKind::If) {
            s_if(toks, p)
        } else if t == kind_tag(TokenKind::While) {
            s_while(toks, p)
        } else if t == tag_variable() {
            s_assign_or_expr(toks, p)
        } else {
            s_expr_stmt(toks, p)
        }
    }
}

/// `if expr block` with an optional `else block`.
pub open spec fn s_if(toks: Seq<TokModel>, p: int) -> Result<(AStmt, int), ParseError>
    decreases toks.len() - p, 2nat,
{
    match s_expect(toks, p, TokenKind::If) {
        Err(e) => Err(e),
        Ok(p1) => match s_expr(toks, p1) {
            Err(e) => Err(e),
            Ok((c, q)) => if !advanced(toks, p, q) {
                Err(perr(ParseErrorKind::Incomplete, q))
            } else {
                match s_block(toks, q) {
                    Err(e) => Err(e),
                    Ok((t, q2)) => if is_kind(toks, q2, TokenKind::Else) {
                        if !advanced(toks, q, q2) {
                            Err(perr(ParseErrorKind::Incomplete, q2))
                        } else {
                            match s_block(toks, q2 + 1) {
                                Err(e) => Err(e),
                                Ok((eb, q3)) => Ok((AStmt::If(c, t, Some(eb)), q3)),
                            }
                        }
                    } else {
                        Ok((AStmt::If(c, t, None), q2))
                    },
                }
            },
        },
    }
}

/// `while expr block`
pub open spec fn s_while(toks: Seq<TokModel>, p: int) -> Result<(AStmt, int), ParseError>
    decreases toks.len() - p, 2nat,
{
    match s_expect(toks, p, TokenKind::While) {
        Err(e) => Err(e),
        Ok(p1) => match s_expr(toks, p1) {
            Err(e) => Err(e),
            Ok((c, q)) => if !advanced(toks, p, q) {
                Err(perr(ParseErrorKind::Incomplete, q))
            } else {
                match s_block(toks, q) {
                    Err(e) => Err(e),
                    Ok((body, q2)) => Ok((AStmt::While(c, body), q2)),
                }
            },
        },
    }
}

/// `{ statements }`
pub open spec fn s_block(toks: Seq<TokModel>, p: int) -> Result<(Seq<AStmt>, int), ParseError>
    decreases toks.len() - p, 1nat,
{
    match s_expect(toks, p, TokenKind::CurlyBracketOpen) {
        Err(e) => Err(e),
        Ok(p1) => s_block_items(toks, Seq::empty(), p1),
    }
}

/// The statements of a block after `acc`, up to the closing brace (a block
/// left open at the end of input fails at the end-of-input token).
pub open spec fn s_block_items(toks: Seq<TokModel>, acc: Seq<AStmt>, q: int) -> Result<(Seq<AStmt>, int), ParseError>
    decreases toks.len() - q, 4nat,
{
    if !in_range(toks, q) {
        Err(perr(ParseErrorKind::Incomplete, q))
    } else if !is_kind(toks, q, TokenKind::CurlyBracketClose) && !is_kind(toks, q, TokenKind::EOF) {
        match s_stmt(toks, q) {
            Err(e) => Err(e),
            Ok((st, q2)) => if !advanced(toks, q, q2) {
                Err(perr(ParseErrorKind::Incomplete, q2))
            } else {
                s_block_items(toks, acc.push(st), q2)
            },
        }
    } else {
        match s_expect(toks, q, TokenKind::CurlyBracketClose) {
            Err(e) => Err(e),
            Ok(q2) => Ok((acc, q2)),
        }
    }
}

/// `name: type`
pub open spec fn s_param(toks: Seq<TokModel>, p: int) -> Result<(AParam, int), ParseError> {
    match s_ident(toks, p) {
        Err(e) => Err(e),
        Ok((name, p1)) => match s_expect(toks, p1, TokenKind::Colon) {
            Err(e) => Err(e),
            Ok(p2) => match s_type(toks, p2) {
                Err(e) => Err(e),
                Ok((t, p3)) => Ok((AParam { name: name, typ: t }, p3)),
            },
        },
    }
}

/// More parameters after `acc`, each after a comma.
pub open spec fn s_params_tail(toks: Seq<TokModel>, acc: Seq<AParam>, q: int) -> Result<(Seq<AParam>, int), ParseError>
    decreases toks.len() - q,
{
    if is_kind(toks, q, TokenKind::Comma) {
        match s_param(toks, q + 1) {
            Err(e) => Err(e),
            Ok((x, q2)) => if !advanced(toks, q, q2) {
                Err(perr(ParseErrorKind::Incomplete, q2))
            } else {
                s_params_tail(toks, acc.push(x), q2)
            },
        }
    } else {
        Ok((acc, q))
    }
}

/// `fn name(params) -> type block`, the parameters and the return type optional.
pub open spec fn s_func(toks: Seq<TokModel>, p: int) -> Result<(AFunc, int), ParseError> {
    match s_expect(toks, p, TokenKind::FnDecl) {
        Err(e) => Err(e),
        Ok(p1) => match s_ident(toks, p1) {
            Err(e) => Err(e),
            Ok((name, p2)) => match s_expect(toks, p2, TokenKind::RoundBracketOpen) {
                Err(e) => Err(e),
                Ok(p3) => {
                    let params = if is_kind(toks, p3, TokenKind::RoundBracketClose) {
                        Ok((Seq::<AParam>::empty(), p3))
                    } else {
                        match s_param(toks, p3) {
                            Err(e) => Err(e),
                            Ok((x, q)) => if !advanced(toks, p3, q) {
                                Err(perr(ParseErrorKind::Incomplete, q))
                            } else {
                                s_params_tail(toks, seq![x], q)
                            },
                        }
                    };
                    match params {
                        Err(e) => Err(e),
                        Ok((ps, p4)) => match s_expect(toks, p4, TokenKind::RoundBracketClose) {
                            Err(e) => Err(e),
                            Ok(p5) => {
                                let ret = if is_kind(toks, p5, TokenKind::Arrow) {
                                    match s_type(toks, p5 + 1) {
                                        Err(e) => Err(e),
                                        Ok((t, q)) => Ok((Some(t), q)),
                                    }
                                } else {
                                    Ok((None, p5))
                                };
                                match ret {
                                    Err(e) => Err(e),
                                    Ok((rt, p6)) => match s_block(toks, p6) {
                                        Err(e) => Err(e),
                                        Ok((body, p7)) => Ok((AFunc { name: name, params: ps, return_type: rt, body: body }, p7)),
                                    },
                                }
                            },
                        },
                    }
                },
            },
        },
    }
}

/// The top-level items from `q` on: functions and `let` declarations, until
/// the end-of-input token.
pub open spec fn s_items(toks: Seq<TokModel>, fns: Seq<AFunc>, stmts: Seq<AStmt>, q: int) -> Result<AProgram, ParseError>
    decreases toks.len() - q,
{
    if !in_range(toks, q) {
        Err(perr(ParseErrorKind::Incomplete, q))
    } else if is_kind(toks, q, TokenKind::EOF) {
        Ok(AProgram { functions: fns, statements: stmts })
    } else {
        let t = toks[q].tag;
        if t == kind_tag(TokenKind::FnDecl) {
            match s_func(toks, q) {
                Err(e) => Err(e),
                Ok((f, q2)) => if !advanced(toks, q, q2) {
                    Err(perr(ParseErrorKind::Incomplete, q2))
                } else {
                    s_items(toks, fns.push(f), stmts, q2)
                },
            }
        } else if t == kind_tag(TokenKind::Let) {
            match s_let(toks, q) {
                Err(e) => Err(e),
                Ok((st, q2)) => if !advanced(toks, q, q2) {
                    Err(perr(ParseErrorKind::Incomplete, q2))
                } else {
                    s_items(toks, fns, stmts.push(st), q2)
                },
            }
        } else {
            Err(perr(ParseErrorKind::ExpectedItem, q))
        }
    }
}

/// A whole program from the first token.
pub open spec fn s_program(toks: Seq<TokModel>) -> Result<AProgram, ParseError> {
    s_items(toks, Seq::empty(), Seq::empty(), 0)
}

/// The message of a parse error: what was expected, the description of the
/// token found, and its line and column.
pub open spec fn error_text(toks: Seq<TokModel>, e: ParseError) -> Seq<char> {
    let t = toks[e.at as int];
    let found = model_text(t);
    let place = " at "@ + dec_text(t.line) + ":"@ + dec_text(t.col);
    match e.kind {
        ParseErrorKind::ExpectedToken(k) => "Expected "@ + kind_text(k) + ", got "@ + found + place,
        ParseErrorKind::ExpectedIdentifier => "Expected identifier, got "@ + found + place,
        ParseErrorKind::ExpectedArraySize => "Expected number for array size, got "@ + found + place,
        ParseErrorKind::ExpectedType => "Expected type (i32, String, or [type; N]), got "@ + found + place,
        ParseErrorKind::UnexpectedToken => "Unexpected token "@ + found + " in expression"@ + place,
        ParseErrorKind::ExpectedItem => "Expected function or declaration, got "@ + found + place,
        ParseErrorKind::Incomplete => "Unexpected end of tokens"@,
    }
}

pub struct Parser {
    tokens: Vec<Token>,
    pos: usize,
}

/// The index of the first end-of-input token at or after `i`, or the number
/// of tokens where there is none.
pub open spec fn eof_from(toks: Seq<TokModel>, i: int) -> int
    decreases toks.len() - i,
{
    if i < 0 || i >= toks.len() {
        toks.len() as int
    } else if toks[i].tag == tag_eof() {
        i
    } else {
        eof_from(toks, i + 1)
    }
}

/// Some token is an end-of-input token.
pub open spec fn has_eof(toks: Seq<TokModel>) -> bool {
    exists|k: int| 0 <= k < toks.len() && #[trigger] toks[k].tag == tag_eof()
}

/// The tokens up to and including the first end-of-input token (all of them
/// where there is none). Parsing stops at that token, so these are all the
/// tokens it can read.
pub open spec fn upto_eof(toks: Seq<TokModel>) -> Seq<TokModel> {
    if eof_from(toks, 0) < toks.len() {
        toks.subrange(0, eof_from(toks, 0) + 1)
    } else {
        toks
    }
}

proof fn lemma_eof_from(toks: Seq<TokModel>, i: int)
    requires
        0 <= i <= toks.len(),
    ensures
        i <= eof_from(toks, i) <= toks.len(),
        eof_from(toks, i) < toks.len() ==> toks[eof_from(toks, i)].tag == tag_eof(),
        forall|k: int| i <= k < toks.len() && #[trigger] toks[k].tag == tag_eof() ==> eof_from(toks, i) <= k,
    decreases toks.len() - i,
{
    if i < toks.len() && toks[i].tag != tag_eof() {
        lemma_eof_from(toks, i + 1);
    }
}

/// Tokens with an end-of-input token, cut after the first one, are ready to
/// parse from the start.
pub proof fn lemma_upto_eof_ready(toks: Seq<TokModel>)
    requires
        has_eof(toks),
    ensures
        ready_tokens(upto_eof(toks), 0),
{
    lemma_eof_from(toks, 0);
}

/// The parser's tokens end with an end-of-input token and its position lies
/// on a token.
pub open spec fn ready_tokens(toks: Seq<TokModel>, pos: int) -> bool {
    &&& toks.len() > 0
    &&& toks.last().tag == tag_eof()
    &&& 0 <= pos < toks.len()
}

/// An outcome of a parse step that agrees with the grammar: on success the
/// position moved past what was read and still lies on a token; on failure the
/// error is the grammar's, at a token.
pub open spec fn agrees<V>(toks: Seq<TokModel>, p0: int, p1: int, ok: Option<V>, err: Option<ParseError>, want: Result<(V, int), ParseError>) -> bool {
    match want {
        Ok((v, q)) => ok == Some(v) && err.is_none() && p1 == q && p0 < q < toks.len(),
        Err(e) => ok.is_none() && err == Some(e) && 0 <= e.at < toks.len() && !(e.kind is Incomplete),
    }
}

pub open spec fn expr_ok(r: Result<Expr, ParseError>) -> Option<AExpr> {
    match r {
        Ok(e) => Some(e@),
        Err(_) => None,
    }
}

pub open spec fn err_of<T>(r: Result<T, ParseError>) -> Option<ParseError> {
    match r {
        Ok(_) => None,
        Err(e) => Some(e),
    }
}

impl Parser {
    /// The tokens being parsed.
    pub closed spec fn tokens_view(&self) -> Seq<TokModel> {
        toks_model(self.tokens@)
    }

    /// The index of the next token.
    pub closed spec fn position(&self) -> int {
        self.pos as int
    }

    /// A parser at the first of `tokens`; it keeps the tokens up to the first
    /// end-of-input token, the only ones it can read.
    pub fn new(tokens: Vec<Token>) -> (p: Self)
        ensures
            p.tokens_view() == upto_eof(toks_model(tokens@)),
            p.position() == 0,
    {
        let ghost all = toks_model(tokens@);
        let mut tokens = tokens;
        let mut i: usize = 0;
        while i < tokens.len() && tag_of(&tokens[i].kind) != 42
            invariant
                all == toks_model(tokens@),
                i <= tokens@.len(),
                eof_from(all, 0) == eof_from(all, i as int),
            decreases tokens@.len() - i,
        {
            i = i + 1;
        }
        if i < tokens.len() {
            tokens.truncate(i + 1);
            assert(toks_model(tokens@) =~= all.subrange(0, i + 1));
        }
        Parser { tokens, pos: 0 }
    }

    fn advance(&mut self)
        requires
            old(self).pos < toks_model(old(self).tokens@).len(),
        ensures
            toks_model(final(self).tokens@) == toks_model(old(self).tokens@),
            final(self).pos == old(self).pos + 1,
    {
        let n = self.tokens.len();
        assert(self.pos < n);
        self.pos += 1;
    }

    fn check(&self, kind: &TokenKind) -> (b: bool)
        requires
            self.pos < toks_model(self.tokens@).len(),
        ensures
            b == is_kind(toks_model(self.tokens@), self.pos as int, *kind),
    {
        tag_of(&self.tokens[self.pos].kind) == tag_of(kind)
    }

    fn is_at_end(&self) -> (b: bool)
        requires
            self.pos < toks_model(self.tokens@).len(),
        ensures
            b == is_kind(toks_model(self.tokens@), self.pos as int, TokenKind::EOF),
    {
        match &self.tokens[self.pos].kind {
            TokenKind::EOF => true,
            _ => false,
        }
    }

    fn expect(&mut self, kind: TokenKind) -> (res: Result<(), ParseError>)
        requires
            ready_tokens(toks_model(old(self).tokens@), old(self).pos as int),
            !(kind is EOF),
        ensures
            toks_model(final(self).tokens@) == toks_model(old(self).tokens@),
            match s_expect(toks_model(old(self).tokens@), old(self).pos as int, kind) {
                Ok(q) => res is Ok && final(self).pos == q && q < toks_model(old(self).tokens@).len(),
                Err(e) => res == Err::<(), ParseError>(e) && e.at < toks_model(old(self).tokens@).len() && !(e.kind is Incomplete),
            },
    {
        if self.check(&kind) {
            self.advance();
            Ok(())
        } else {
            Err(ParseError { kind: ParseErrorKind::ExpectedToken(kind), at: self.pos })
        }
    }

    fn expect_identifier(&mut self) -> (res: Result<String, ParseError>)
        requires
            ready_tokens(toks_model(old(self).tokens@), old(self).pos as int),
        ensures
            toks_model(final(self).tokens@) == toks_model(old(self).tokens@),
            match s_ident(toks_model(old(self).tokens@), old(self).pos as int) {
                Ok((v, q)) => res matches Ok(x) && x@ == v && final(self).pos == q && q < toks_model(old(self).tokens@).len(),
                Err(e) => res == Err::<String, ParseError>(e) && e.at < toks_model(old(self).tokens@).len() && !(e.kind is Incomplete),
            },
    {
        let at = self.pos;
        let r = match &self.tokens[at].kind {
            TokenKind::Variable(s) => Ok(s.clone()),
            _ => Err(ParseError { kind: ParseErrorKind::ExpectedIdentifier, at }),
        };
        self.advance();
        r
    }

    fn parse_type(&mut self) -> (res: Result<Type, ParseError>)
        requires
            ready_tokens(toks_model(old(self).tokens@), old(self).pos as int),
        ensures
            toks_model(final(self).tokens@) == toks_model(old(self).tokens@),
            match s_type(toks_model(old(self).tokens@), old(self).pos as int) {
                Ok((v, q)) => res matches Ok(x) && x == v && final(self).pos == q && old(self).pos < q < toks_model(old(self).tokens@).len(),
                Err(e) => res == Err::<Type, ParseError>(e) && e.at < toks_model(old(self).tokens@).len() && !(e.kind is Incomplete),
            },
        decreases toks_model(old(self).tokens@).len() - old(self).pos,
    {
        let at = self.pos;
        match &self.tokens[at].kind {
            TokenKind::I32Decl => {
                self.advance();
                Ok(Type::I32)
            },
            TokenKind::StringType => {
                self.advance();
                Ok(Type::StringType)
            },
            TokenKind::SquareBracketOpen => {
                self.advance();
                let inner = self.parse_type()?;
                self.expect(TokenKind::Semicolon)?;
                let at2 = self.pos;
                let size = match &self.tokens[at2].kind {
                    TokenKind::Number(n) => *n,
                    _ => {
                        self.advance();
                        return Err(ParseError { kind: ParseErrorKind::ExpectedArraySize, at: at2 });
                    },
                };
                self.advance();
                self.expect(TokenKind::SquareBracketClose)?;
                Ok(Type::Array(Box::new(inner), size as usize))
            },
            _ => Err(ParseError { kind: ParseErrorKind::ExpectedType, at }),
        }
    }
}

/// The rest of a chain after an operator, once the operand after it is read.
pub open spec fn tail_after(toks: Seq<TokModel>, level: nat, left: AExpr, op: BinaryOp, operand: Result<(AExpr, int), ParseError>, q: int) -> Result<(AExpr, int), ParseError> {
    match operand {
        Err(e) => Err(e),
        Ok((right, q2)) => if !advanced(toks, q, q2) {
            Err(perr(ParseErrorKind::Incomplete, q2))
        } else {
            s_binary_tail(toks, level, AExpr::Binary(Box::new(left), op, Box::new(right)), q2)
        },
    }
}

proof fn lemma_tail_step(toks: Seq<TokModel>, level: nat, left: AExpr, q: int, op: BinaryOp)
    requires
        level <= 8,
        in_range(toks, q),
        level_op(level, toks[q].tag) == Some(op),
    ensures
        s_binary_tail(toks, level, left, q) == tail_after(toks, level, left, op, s_operand(toks, level, q + 1), q),
        s_operand(toks, level, q + 1) == if level == 8 { s_unary(toks, q + 1) } else { s_binary(toks, level + 1, q + 1) },
{
}

proof fn lemma_exprs_view_push(s: Seq<Expr>, e: Expr)
    ensures
        exprs_view(s.push(e)) == exprs_view(s).push(e@),
{
    assert(s.push(e).subrange(0, s.len() as int) =~= s);
}

impl Parser {
    fn parse_expr(&mut self) -> (res: Result<Expr, ParseError>)
        requires
            ready_tokens(toks_model(old(self).tokens@), old(self).pos as int),
        ensures
            toks_model(final(self).tokens@) == toks_model(old(self).tokens@),
            agrees(toks_model(old(self).tokens@), old(self).pos as int, final(self).pos as int, expr_ok(res), err_of(res), s_expr(toks_model(old(self).tokens@), old(self).pos as int)),
        decreases toks_model(old(self).tokens@).len() - old(self).pos, 30nat, 0nat,
    {
        self.parse_logical_or()
    }

    fn peek_op(&self, level: u8) -> (r: Option<BinaryOp>)
        requires
            self.pos < toks_model(self.tokens@).len(),
        ensures
            r == level_op(level as nat, toks_model(self.tokens@)[self.pos as int].tag),
    {
        match &self.tokens[self.pos].kind {
            TokenKind::OpEq => if level == 5 { Some(BinaryOp::Eq) } else { None },
            TokenKind::OpNotEq => if level == 5 { Some(BinaryOp::NotEq) } else { None },
            TokenKind::OpLessThan => if level == 6 { Some(BinaryOp::Less) } else { None },
            TokenKind::OpLessOrEq => if level == 6 { Some(BinaryOp::LessEq) } else { None },
            TokenKind::OpGreaterThan => if level == 6 { Some(BinaryOp::Greater) } else { None },
            TokenKind::OpGreaterOrEq => if level == 6 { Some(BinaryOp::GreaterEq) } else { None },
            TokenKind::OpAdd => if level == 7 { Some(BinaryOp::Add) } else { None },
            TokenKind::OpSub => if level == 7 { Some(BinaryOp::Sub) } else { None },
            TokenKind::OpMul => if level == 8 { Some(BinaryOp::Mul) } else { None },
            TokenKind::OpDiv => if level == 8 { Some(BinaryOp::Div) } else { None },
            TokenKind::OpRem => if level == 8 { Some(BinaryOp::Rem) } else { None },
            TokenKind::OpOr => if level == 0 { Some(BinaryOp::Or) } else { None },
            TokenKind::OpAnd => if level == 1 { Some(BinaryOp::And) } else { None },
            TokenKind::OpBitOr => if level == 2 { Some(BinaryOp::BitOr) } else { None },
            TokenKind::OpXor => if level == 3 { Some(BinaryOp::Xor) } else { None },
            TokenKind::OpBitAnd => if level == 4 { Some(BinaryOp::BitAnd) } else { None },
            _ => None,
        }
    }

    fn parse_logical_or(&mut self) -> (res: Result<Expr, ParseError>)
        requires
            ready_tokens(toks_model(old(self).tokens@), old(self).pos as int),
        ensures
            toks_model(final(self).tokens@) == toks_model(old(self).tokens@),
            agrees(toks_model(old(self).tokens@), old(self).pos as int, final(self).pos as int, expr_ok(res), err_of(res), s_binary(toks_model(old(self).tokens@), 0, old(self).pos as int)),
        decreases toks_model(old(self).tokens@).len() - old(self).pos, 20nat, 2nat,
    {
        let ghost p0 = self.pos as int;
        let ghost toks = toks_model(self.tokens@);
        let mut left = self.parse_logical_and()?;
        while self.check(&TokenKind::OpOr)
            invariant
                toks_model(self.tokens@) == toks,
                toks == toks_model(old(self).tokens@),
                p0 == old(self).pos,
                ready_tokens(toks, self.pos as int),
                p0 < self.pos,
                s_binary(toks, 0, p0) == s_binary_tail(toks, 0, left@, self.pos as int),
            decreases toks.len() - self.pos,
        {
            proof {
                lemma_tail_step(toks, 0, left@, self.pos as int, BinaryOp::Or);
            }
            self.advance();
            let right = self.parse_logical_and()?;
            left = Expr::BinaryOp(Box::new(left), BinaryOp::Or, Box::new(right));
        }
        Ok(left)
    }

    fn parse_logical_and(&mut self) -> (res: Result<Expr, ParseError>)
        requires
            ready_tokens(toks_model(old(self).tokens@), old(self).pos as int),
        ensures
            toks_model(final(self).tokens@) == toks_model(old(self).tokens@),
            agrees(toks_model(old(self).tokens@), old(self).pos as int, final(self).pos as int, expr_ok(res), err_of(res), s_binary(toks_model(old(self).tokens@), 1, old(self).pos as int)),
        decreases toks_model(old(self).tokens@).len() - old(self).pos, 19nat, 2nat,
    {
        let ghost p0 = self.pos as int;
        let ghost toks = toks_model(self.tokens@);
        let mut left = self.parse_bit_or()?;
        while self.check(&TokenKind::OpAnd)
            invariant
                toks_model(self.tokens@) == toks,
                toks == toks_model(old(self).tokens@),
                p0 == old(self).pos,
                ready_tokens(toks, self.pos as int),
                p0 < self.pos,
                s_binary(toks, 1, p0) == s_binary_tail(toks, 1, left@, self.pos as int),
            decreases toks.len() - self.pos,
        {
            proof {
                lemma_tail_step(toks, 1, left@, self.pos as int, BinaryOp::And);
            }
            self.advance();
            let right = self.parse_bit_or()?;
            left = Expr::BinaryOp(Box::new(left), BinaryOp::And, Box::new(right));
        }
        Ok(left)
    }

    fn parse_bit_or(&mut self) -> (res: Result<Expr, ParseError>)
        requires
            ready_tokens(toks_model(old(self).tokens@), old(self).pos as int),
        ensures
            toks_model(final(self).tokens@) == toks_model(old(self).tokens@),
            agrees(toks_model(old(self).tokens@), old(self).pos as int, final(self).pos as int, expr_ok(res), err_of(res), s_binary(toks_model(old(self).tokens@), 2, old(self).pos as int)),
        decreases toks_model(old(self).tokens@).len() - old(self).pos, 18nat, 2nat,
    {
        let ghost p0 = self.pos as int;
        let ghost toks = toks_model(self.tokens@);
        let mut left = self.parse_bit_xor()?;
        while self.check(&TokenKind::OpBitOr)
            invariant
                toks_model(self.tokens@) == toks,
                toks == toks_model(old(self).tokens@),
                p0 == old(self).pos,
                ready_tokens(toks, self.pos as int),
                p0 < self.pos,
                s_binary(toks, 2, p0) == s_binary_tail(toks, 2, left@, self.pos as int),
            decreases toks.len() - self.pos,
        {
            proof {
                lemma_tail_step(toks, 2, left@, self.pos as int, BinaryOp::BitOr);
            }
            self.advance();
            let right = self.parse_bit_xor()?;
            left = Expr::BinaryOp(Box::new(left), BinaryOp::BitOr, Box::new(right));
        }
        Ok(left)
    }

    fn parse_bit_xor(&mut self) -> (res: Result<Expr, ParseError>)
        requires
            ready_tokens(toks_model(old(self).tokens@), old(self).pos as int),
        ensures
            toks_model(final(self).tokens@) == toks_model(old(self).tokens@),
            agrees(toks_model(old(self).tokens@), old(self).pos as int, final(self).pos as int, expr_ok(res), err_of(res), s_binary(toks_model(old(self).tokens@), 3, old(self).pos as int)),
        decreases toks_model(old(self).tokens@).len() - old(self).pos, 17nat, 2nat,
    {
        let ghost p0 = self.pos as int;
        let ghost toks = toks_model(self.tokens@);
        let mut left = self.parse_bit_and()?;
        while self.check(&TokenKind::OpXor)
            invariant
                toks_model(self.tokens@) == toks,
                toks == toks_model(old(self).tokens@),
                p0 == old(self).pos,
                ready_tokens(toks, self.pos as int),
                p0 < self.pos,
                s_binary(toks, 3, p0) == s_binary_tail(toks, 3, left@, self.pos as int),
            decreases toks.len() - self.pos,
        {
            proof {
                lemma_tail_step(toks, 3, left@, self.pos as int, BinaryOp::Xor);
            }
            self.advance();
            let right = self.parse_bit_and()?;
            left = Expr::BinaryOp(Box::new(left), BinaryOp::Xor, Box::new(right));
        }
        Ok(left)
    }

    fn parse_bit_and(&mut self) -> (res: Result<Expr, ParseError>)
        requires
            ready_tokens(toks_model(old(self).tokens@), old(self).pos as int),
        ensures
            toks_model(final(self).tokens@) == toks_model(old(self).tokens@),
            agrees(toks_model(old(self).tokens@), old(self).pos as int, final(self).pos as int, expr_ok(res), err_of(res), s_binary(toks_model(old(self).tokens@), 4, old(self).pos as int)),
        decreases toks_model(old(self).tokens@).len() - old(self).pos, 16nat, 2nat,
    {
        let ghost p0 = self.pos as int;
        let ghost toks = toks_model(self.tokens@);
        let mut left = self.parse_equality()?;
        while self.check(&TokenKind::OpBitAnd)
            invariant
                toks_model(self.tokens@) == toks,
                toks == toks_model(old(self).tokens@),
                p0 == old(self).pos,
                ready_tokens(toks, self.pos as int),
                p0 < self.pos,
                s_binary(toks, 4, p0) == s_binary_tail(toks, 4, left@, self.pos as int),
            decreases toks.len() - self.pos,
        {
            proof {
                lemma_tail_step(toks, 4, left@, self.pos as int, BinaryOp::BitAnd);
            }
            self.advance();
            let right = self.parse_equality()?;
            left = Expr::BinaryOp(Box::new(left), BinaryOp::BitAnd, Box::new(right));
        }
        Ok(left)
    }

    fn parse_equality(&mut self) -> (res: Result<Expr, ParseError>)
        requires
            ready_tokens(toks_model(old(self).tokens@), old(self).pos as int),
        ensures
            toks_model(final(self).tokens@) == toks_model(old(self).tokens@),
            agrees(toks_model(old(self).tokens@), old(self).pos as int, final(self).pos as int, expr_ok(res), err_of(res), s_binary(toks_model(old(self).tokens@), 5, old(self).pos as int)),
        decreases toks_model(old(self).tokens@).len() - old(self).pos, 15nat, 2nat,
    {
        let ghost p0 = self.pos as int;
        let ghost toks = toks_model(self.tokens@);
        let mut left = self.parse_relational()?;
        let mut next = self.peek_op(5);
        while next.is_some()
            invariant
                toks_model(self.tokens@) == toks,
                toks == toks_model(old(self).tokens@),
                p0 == old(self).pos,
                ready_tokens(toks, self.pos as int),
                p0 < self.pos,
                next == level_op(5, toks[self.pos as int].tag),
                s_binary(toks, 5, p0) == s_binary_tail(toks, 5, left@, self.pos as int),
            decreases toks.len() - self.pos,
        {
            let op = next.unwrap();
            proof {
                lemma_tail_step(toks, 5, left@, self.pos as int, op);
            }
            self.advance();
            let right = self.parse_relational()?;
            left = Expr::BinaryOp(Box::new(left), op, Box::new(right));
            next = self.peek_op(5);
        }
        Ok(left)
    }

    fn parse_relational(&mut self) -> (res: Result<Expr, ParseError>)
        requires
            ready_tokens(toks_model(old(self).tokens@), old(self).pos as int),
        ensures
            toks_model(final(self).tokens@) == toks_model(old(self).tokens@),
            agrees(toks_model(old(self).tokens@), old(self).pos as int, final(self).pos as int, expr_ok(res), err_of(res), s_binary(toks_model(old(self).tokens@), 6, old(self).pos as int)),
        decreases toks_model(old(self).tokens@).len() - old(self).pos, 14nat, 2nat,
    {
        let ghost p0 = self.pos as int;
        let ghost toks = toks_model(self.tokens@);
        let mut left = self.parse_additive()?;
        let mut next = self.peek_op(6);
        while next.is_some()
            invariant
                toks_model(self.tokens@) == toks,
                toks == toks_model(old(self).tokens@),
                p0 == old(self).pos,
                ready_tokens(toks, self.pos as int),
                p0 < self.pos,
                next == level_op(6, toks[self.pos as int].tag),
                s_binary(toks, 6, p0) == s_binary_tail(toks, 6, left@, self.pos as int),
            decreases toks.len() - self.pos,
        {
            let op = next.unwrap();
            proof {
                lemma_tail_step(toks, 6, left@, self.pos as int, op);
            }
            self.advance();
            let right = self.parse_additive()?;
            left = Expr::BinaryOp(Box::new(left), op, Box::new(right));
            next = self.peek_op(6);
        }
        Ok(left)
    }

    fn parse_additive(&mut self) -> (res: Result<Expr, ParseError>)
        requires
            ready_tokens(toks_model(old(self).tokens@), old(self).pos as int),
        ensures
            toks_model(final(self).tokens@) == toks_model(old(self).tokens@),
            agrees(toks_model(old(self).tokens@), old(self).pos as int, final(self).pos as int, expr_ok(res), err_of(res), s_binary(toks_model(old(self).tokens@), 7, old(self).pos as int)),
        decreases toks_model(old(self).tokens@).len() - old(self).pos, 13nat, 2nat,
    {
        let ghost p0 = self.pos as int;
        let ghost toks = toks_model(self.tokens@);
        let mut left = self.parse_multiplicative()?;
        let mut next = self.peek_op(7);
        while next.is_some()
            invariant
                toks_model(self.tokens@) == toks,
                toks == toks_model(old(self).tokens@),
                p0 == old(self).pos,
                ready_tokens(toks, self.pos as int),
                p0 < self.pos,
                next == level_op(7, toks[self.pos as int].tag),
                s_binary(toks, 7, p0) == s_binary_tail(toks, 7, left@, self.pos as int),
            decreases toks.len() - self.pos,
        {
            let op = next.unwrap();
            proof {
                lemma_tail_step(toks, 7, left@, self.pos as int, op);
            }
            self.advance();
            let right = self.parse_multiplicative()?;
            left = Expr::BinaryOp(Box::new(left), op, Box::new(right));
            next = self.peek_op(7);
        }
        Ok(left)
    }

    fn parse_multiplicative(&mut self) -> (res: Result<Expr, ParseError>)
        requires
            ready_tokens(toks_model(old(self).tokens@), old(self).pos as int),
        ensures
            toks_model(final(self).tokens@) == toks_model(old(self).tokens@),
            agrees(toks_model(old(self).tokens@), old(self).pos as int, final(self).pos as int, expr_ok(res), err_of(res), s_binary(toks_model(old(self).tokens@), 8, old(self).pos as int)),
        decreases toks_model(old(self).tokens@).len() - old(self).pos, 12nat, 2nat,
    {
        let ghost p0 = self.pos as int;
        let ghost toks = toks_model(self.tokens@);
        let mut left = self.parse_unary()?;
        let mut next = self.peek_op(8);
        while next.is_some()
            invariant
                toks_model(self.tokens@) == toks,
                toks == toks_model(old(self).tokens@),
                p0 == old(self).pos,
                ready_tokens(toks, self.pos as int),
                p0 < self.pos,
                next == level_op(8, toks[self.pos as int].tag),
                s_binary(toks, 8, p0) == s_binary_tail(toks, 8, left@, self.pos as int),
            decreases toks.len() - self.pos,
        {
            let op = next.unwrap();
            proof {
                lemma_tail_step(toks, 8, left@, self.pos as int, op);
            }
            self.advance();
            let right = self.parse_unary()?;
            left = Expr::BinaryOp(Box::new(left), op, Box::new(right));
            next = self.peek_op(8);
        }
        Ok(left)
    }

    fn parse_unary(&mut self) -> (res: Result<Expr, ParseError>)
        requires
            ready_tokens(toks_model(old(self).tokens@), old(self).pos as int),
        ensures
            toks_model(final(self).tokens@) == toks_model(old(self).tokens@),
            agrees(toks_model(old(self).tokens@), old(self).pos as int, final(self).pos as int, expr_ok(res), err_of(res), s_unary(toks_model(old(self).tokens@), old(self).pos as int)),
        decreases toks_model(old(self).tokens@).len() - old(self).pos, 10nat, 0nat,
    {
        let op = match &self.tokens[self.pos].kind {
            TokenKind::OpSub => Some(UnaryOp::Neg),
            TokenKind::OpNot => Some(UnaryOp::Not),
            TokenKind::OpBitNot => Some(UnaryOp::BitNot),
            _ => None,
        };
        match op {
            Some(o) => {
                self.advance();
                let expr = self.parse_unary()?;
                Ok(Expr::UnaryOp(o, Box::new(expr)))
            },
            None => self.parse_primary(),
        }
    }

    fn parse_primary(&mut self) -> (res: Result<Expr, ParseError>)
        requires
            ready_tokens(toks_model(old(self).tokens@), old(self).pos as int),
        ensures
            toks_model(final(self).tokens@) == toks_model(old(self).tokens@),
            agrees(toks_model(old(self).tokens@), old(self).pos as int, final(self).pos as int, expr_ok(res), err_of(res), s_primary(toks_model(old(self).tokens@), old(self).pos as int)),
            !starts_primary(toks_model(old(self).tokens@)[old(self).pos as int].tag) ==> final(self).pos == old(self).pos,
        decreases toks_model(old(self).tokens@).len() - old(self).pos, 9nat, 0nat,
    {
        let at = self.pos;
        let name = match &self.tokens[at].kind {
            TokenKind::Number(n) => {
                let v = *n;
                self.advance();
                return Ok(Expr::Number(v));
            },
            TokenKind::String(s) => {
                let v = s.clone();
                self.advance();
                return Ok(Expr::String(v));
            },
            TokenKind::Variable(s) => s.clone(),
            TokenKind::Out => {
                let mut n = String::new();
                push_str(&mut n, "out");
                n
            },
            TokenKind::In => {
                let mut n = String::new();
                push_str(&mut n, "in");
                n
            },
            TokenKind::RoundBracketOpen => {
                self.advance();
                let expr = self.parse_expr()?;
                self.expect(TokenKind::RoundBracketClose)?;
                return Ok(Expr::Grouping(Box::new(expr)));
            },
            TokenKind::SquareBracketOpen => {
                return self.parse_array_init();
            },
            _ => {
                return Err(ParseError { kind: ParseErrorKind::UnexpectedToken, at });
            },
        };
        self.advance();
        if self.check(&TokenKind::RoundBracketOpen) {
            self.parse_function_call(name)
        } else if self.check(&TokenKind::SquareBracketOpen) {
            self.parse_array_access(name)
        } else {
            Ok(Expr::Variable(name))
        }
    }

    fn parse_function_call(&mut self, name: String) -> (res: Result<Expr, ParseError>)
        requires
            ready_tokens(toks_model(old(self).tokens@), old(self).pos as int),
            is_kind(toks_model(old(self).tokens@), old(self).pos as int, TokenKind::RoundBracketOpen),
        ensures
            toks_model(final(self).tokens@) == toks_model(old(self).tokens@),
            agrees(toks_model(old(self).tokens@), old(self).pos as int, final(self).pos as int, expr_ok(res), err_of(res), s_list(toks_model(old(self).tokens@), old(self).pos as int, true, name@)),
        decreases toks_model(old(self).tokens@).len() - old(self).pos, 8nat, 0nat,
    {
        let ghost p0 = self.pos as int;
        let ghost toks = toks_model(self.tokens@);
        self.advance();
        let mut args: Vec<Expr> = Vec::new();
        if !self.check(&TokenKind::RoundBracketClose) {
            let first = self.parse_expr()?;
            args.push(first);
            proof {
                lemma_exprs_view_push(Seq::empty(), first);
                assert(Seq::<Expr>::empty().push(first) =~= args@);
                assert(exprs_view(Seq::<Expr>::empty()) =~= Seq::<AExpr>::empty());
            }
            while self.check(&TokenKind::Comma)
                invariant
                    toks_model(self.tokens@) == toks,
                    toks == toks_model(old(self).tokens@),
                    p0 == old(self).pos,
                    ready_tokens(toks, self.pos as int),
                    p0 < self.pos,
                    s_list(toks, p0, true, name@) == s_list_finish(toks, true, name@, s_list_tail(toks, exprs_view(args@), self.pos as int)),
                decreases toks.len() - self.pos,
            {
                self.advance();
                let e = self.parse_expr()?;
                proof {
                    lemma_exprs_view_push(args@, e);
                }
                args.push(e);
            }
        }
        self.expect(TokenKind::RoundBracketClose)?;
        Ok(Expr::FunctionCall(name, args))
    }

    fn parse_array_access(&mut self, name: String) -> (res: Result<Expr, ParseError>)
        requires
            ready_tokens(toks_model(old(self).tokens@), old(self).pos as int),
            is_kind(toks_model(old(self).tokens@), old(self).pos as int, TokenKind::SquareBracketOpen),
        ensures
            toks_model(final(self).tokens@) == toks_model(old(self).tokens@),
            agrees(toks_model(old(self).tokens@), old(self).pos as int, final(self).pos as int, expr_ok(res), err_of(res), s_access(toks_model(old(self).tokens@), name@, old(self).pos as int)),
        decreases toks_model(old(self).tokens@).len() - old(self).pos, 8nat, 0nat,
    {
        self.advance();
        let index = self.parse_expr()?;
        self.expect(TokenKind::SquareBracketClose)?;
        Ok(Expr::ArrayAccess(name, Box::new(index)))
    }

    fn parse_array_init(&mut self) -> (res: Result<Expr, ParseError>)
        requires
            ready_tokens(toks_model(old(self).tokens@), old(self).pos as int),
            is_kind(toks_model(old(self).tokens@), old(self).pos as int, TokenKind::SquareBracketOpen),
        ensures
            toks_model(final(self).tokens@) == toks_model(old(self).tokens@),
            agrees(toks_model(old(self).tokens@), old(self).pos as int, final(self).pos as int, expr_ok(res), err_of(res), s_list(toks_model(old(self).tokens@), old(self).pos as int, false, Seq::empty())),
        decreases toks_model(old(self).tokens@).len() - old(self).pos, 8nat, 0nat,
    {
        let ghost p0 = self.pos as int;
        let ghost toks = toks_model(self.tokens@);
        self.advance();
        let mut elems: Vec<Expr> = Vec::new();
        if !self.check(&TokenKind::SquareBracketClose) {
            let first = self.parse_expr()?;
            elems.push(first);
            proof {
                lemma_exprs_view_push(Seq::empty(), first);
                assert(Seq::<Expr>::empty().push(first) =~= elems@);
                assert(exprs_view(Seq::<Expr>::empty()) =~= Seq::<AExpr>::empty());
            }
            while self.check(&TokenKind::Comma)
                invariant
                    toks_model(self.tokens@) == toks,
                    toks == toks_model(old(self).tokens@),
                    p0 == old(self).pos,
                    ready_tokens(toks, self.pos as int),
                    p0 < self.pos,
                    s_list(toks, p0, false, Seq::empty()) == s_list_finish(toks, false, Seq::empty(), s_list_tail(toks, exprs_view(elems@), self.pos as int)),
                decreases toks.len() - self.pos,
            {
                self.advance();
                let e = self.parse_expr()?;
                proof {
                    lemma_exprs_view_push(elems@, e);
                }
                elems.push(e);
            }
        }
        self.expect(TokenKind::SquareBracketClose)?;
        Ok(Expr::ArrayInit(elems))
    }
}

pub open spec fn stmt_ok(r: Result<Statement, ParseError>) -> Option<AStmt> {
    match r {
        Ok(x) => Some(x@),
        Err(_) => None,
    }
}

pub open spec fn block_ok(r: Result<Block, ParseError>) -> Option<Seq<AStmt>> {
    match r {
        Ok(x) => Some(x@),
        Err(_) => None,
    }
}

pub open spec fn param_ok(r: Result<Param, ParseError>) -> Option<AParam> {
    match r {
        Ok(x) => Some(x@),
        Err(_) => None,
    }
}

pub open spec fn params_ok(r: Result<Vec<Param>, ParseError>) -> Option<Seq<AParam>> {
    match r {
        Ok(x) => Some(params_view(x@)),
        Err(_) => None,
    }
}

pub open spec fn func_ok(r: Result<FunctionDecl, ParseError>) -> Option<AFunc> {
    match r {
        Ok(x) => Some(x@),
        Err(_) => None,
    }
}

/// The statements of a block after one more statement is read.
pub open spec fn items_after(toks: Seq<TokModel>, acc: Seq<AStmt>, st: Result<(AStmt, int), ParseError>, q: int) -> Result<(Seq<AStmt>, int), ParseError> {
    match st {
        Err(e) => Err(e),
        Ok((x, q2)) => if !advanced(toks, q, q2) {
            Err(perr(ParseErrorKind::Incomplete, q2))
        } else {
            s_block_items(toks, acc.push(x), q2)
        },
    }
}

proof fn lemma_items_step(toks: Seq<TokModel>, acc: Seq<AStmt>, q: int)
    requires
        in_range(toks, q),
        !is_kind(toks, q, TokenKind::CurlyBracketClose),
        !is_kind(toks, q, TokenKind::EOF),
    ensures
        s_block_items(toks, acc, q) == items_after(toks, acc, s_stmt(toks, q), q),
{
}

proof fn lemma_stmts_view_push(s: Seq<Statement>, e: Statement)
    ensures
        stmts_view(s.push(e)) == stmts_view(s).push(e@),
{
    assert(s.push(e).subrange(0, s.len() as int) =~= s);
}

/// The parameters after one more is read.
pub open spec fn params_after(toks: Seq<TokModel>, acc: Seq<AParam>, x: Result<(AParam, int), ParseError>, q: int) -> Result<(Seq<AParam>, int), ParseError> {
    match x {
        Err(e) => Err(e),
        Ok((v, q2)) => if !advanced(toks, q, q2) {
            Err(perr(ParseErrorKind::Incomplete, q2))
        } else {
            s_params_tail(toks, acc.push(v), q2)
        },
    }
}

proof fn lemma_params_step(toks: Seq<TokModel>, acc: Seq<AParam>, q: int)
    requires
        is_kind(toks, q, TokenKind::Comma),
    ensures
        s_params_tail(toks, acc, q) == params_after(toks, acc, s_param(toks, q + 1), q),
{
}

/// The parameters of a function, as `parse_function_decl` reads them.
pub open spec fn s_param_list(toks: Seq<TokModel>, p: int) -> Result<(Seq<AParam>, int), ParseError> {
    match s_param(toks, p) {
        Err(e) => Err(e),
        Ok((x, q)) => if !advanced(toks, p, q) {
            Err(perr(ParseErrorKind::Incomplete, q))
        } else {
            s_params_tail(toks, seq![x], q)
        },
    }
}

impl Parser {
    fn parse_let_stmt(&mut self) -> (res: Result<Statement, ParseError>)
        requires
            ready_tokens(toks_model(old(self).tokens@), old(self).pos as int),
        ensures
            toks_model(final(self).tokens@) == toks_model(old(self).tokens@),
            agrees(toks_model(old(self).tokens@), old(self).pos as int, final(self).pos as int, stmt_ok(res), err_of(res), s_let(toks_model(old(self).tokens@), old(self).pos as int)),
    {
        self.expect(TokenKind::Let)?;
        let name = self.expect_identifier()?;
        self.expect(TokenKind::Colon)?;
        let typ = self.parse_type()?;
        self.expect(TokenKind::Assign)?;
        let value = self.parse_expr()?;
        self.expect(TokenKind::Semicolon)?;
        Ok(Statement::Let(name, typ, value))
    }

    fn parse_return_stmt(&mut self) -> (res: Result<Statement, ParseError>)
        requires
            ready_tokens(toks_model(old(self).tokens@), old(self).pos as int),
        ensures
            toks_model(final(self).tokens@) == toks_model(old(self).tokens@),
            agrees(toks_model(old(self).tokens@), old(self).pos as int, final(self).pos as int, stmt_ok(res), err_of(res), s_return(toks_model(old(self).tokens@), old(self).pos as int)),
    {
        self.expect(TokenKind::Return)?;
        let expr = if self.check(&TokenKind::Semicolon) {
            None
        } else {
            Some(self.parse_expr()?)
        };
        self.expect(TokenKind::Semicolon)?;
        Ok(Statement::Return(expr))
    }

    fn parse_expr_stmt(&mut self) -> (res: Result<Statement, ParseError>)
        requires
            ready_tokens(toks_model(old(self).tokens@), old(self).pos as int),
        ensures
            toks_model(final(self).tokens@) == toks_model(old(self).tokens@),
            agrees(toks_model(old(self).tokens@), old(self).pos as int, final(self).pos as int, stmt_ok(res), err_of(res), s_expr_stmt(toks_model(old(self).tokens@), old(self).pos as int)),
    {
        let expr = self.parse_expr()?;
        self.expect(TokenKind::Semicolon)?;
        Ok(Statement::Expr(expr))
    }

    fn parse_assign_or_expr_stmt(&mut self) -> (res: Result<Statement, ParseError>)
        requires
            ready_tokens(toks_model(old(self).tokens@), old(self).pos as int),
        ensures
            toks_model(final(self).tokens@) == toks_model(old(self).tokens@),
            agrees(toks_model(old(self).tokens@), old(self).pos as int, final(self).pos as int, stmt_ok(res), err_of(res), s_assign_or_expr(toks_model(old(self).tokens@), old(self).pos as int)),
    {
        let name = match &self.tokens[self.pos].kind {
            TokenKind::Variable(s) => s.clone(),
            _ => {
                return self.parse_expr_stmt();
            },
        };
        let n = self.tokens.len();
        if self.pos + 1 < n {
            let next = tag_of(&self.tokens[self.pos + 1].kind);
            if next == tag_of(&TokenKind::Assign) {
                self.advance();
                self.advance();
                let value = self.parse_expr()?;
                self.expect(TokenKind::Semicolon)?;
                return Ok(Statement::Assign(name, None, value));
            } else if next == tag_of(&TokenKind::SquareBracketOpen) {
                let save = self.pos;
                self.advance();
                self.advance();
                let index = self.parse_expr()?;
                self.expect(TokenKind::SquareBracketClose)?;
                if self.check(&TokenKind::Assign) {
                    self.advance();
                    let value = self.parse_expr()?;
                    self.expect(TokenKind::Semicolon)?;
                    return Ok(Statement::Assign(name, Some(Box::new(index)), value));
                }
                self.pos = save;
            }
        }
        self.parse_expr_stmt()
    }

    fn parse_statement(&mut self) -> (res: Result<Statement, ParseError>)
        requires
            ready_tokens(toks_model(old(self).tokens@), old(self).pos as int),
        ensures
            toks_model(final(self).tokens@) == toks_model(old(self).tokens@),
            agrees(toks_model(old(self).tokens@), old(self).pos as int, final(self).pos as int, stmt_ok(res), err_of(res), s_stmt(toks_model(old(self).tokens@), old(self).pos as int)),
        decreases toks_model(old(self).tokens@).len() - old(self).pos, 3nat,
    {
        match &self.tokens[self.pos].kind {
            TokenKind::Let => self.parse_let_stmt(),
            TokenKind::Return => self.parse_return_stmt(),
            TokenKind::If => self.parse_if_stmt(),
            TokenKind::While => self.parse_while_stmt(),
            TokenKind::Variable(_) => self.parse_assign_or_expr_stmt(),
            _ => self.parse_expr_stmt(),
        }
    }

    #[verifier::rlimit(60)]
    fn parse_if_stmt(&mut self) -> (res: Result<Statement, ParseError>)
        requires
            ready_tokens(toks_model(old(self).tokens@), old(self).pos as int),
        ensures
            toks_model(final(self).tokens@) == toks_model(old(self).tokens@),
            agrees(toks_model(old(self).tokens@), old(self).pos as int, final(self).pos as int, stmt_ok(res), err_of(res), s_if(toks_model(old(self).tokens@), old(self).pos as int)),
        decreases toks_model(old(self).tokens@).len() - old(self).pos, 2nat,
    {
        self.expect(TokenKind::If)?;
        let cond = self.parse_expr()?;
        let then_block = self.parse_block()?;
        let else_block = if self.check(&TokenKind::Else) {
            self.advance();
            Some(self.parse_block()?)
        } else {
            None
        };
        Ok(Statement::If(cond, then_block, else_block))
    }

    fn parse_while_stmt(&mut self) -> (res: Result<Statement, ParseError>)
        requires
            ready_tokens(toks_model(old(self).tokens@), old(self).pos as int),
        ensures
            toks_model(final(self).tokens@) == toks_model(old(self).tokens@),
            agrees(toks_model(old(self).tokens@), old(self).pos as int, final(self).pos as int, stmt_ok(res), err_of(res), s_while(toks_model(old(self).tokens@), old(self).pos as int)),
        decreases toks_model(old(self).tokens@).len() - old(self).pos, 2nat,
    {
        self.expect(TokenKind::While)?;
        let cond = self.parse_expr()?;
        let body = self.parse_block()?;
        Ok(Statement::While(cond, body))
    }

    fn parse_block(&mut self) -> (res: Result<Block, ParseError>)
        requires
            ready_tokens(toks_model(old(self).tokens@), old(self).pos as int),
        ensures
            toks_model(final(self).tokens@) == toks_model(old(self).tokens@),
            agrees(toks_model(old(self).tokens@), old(self).pos as int, final(self).pos as int, block_ok(res), err_of(res), s_block(toks_model(old(self).tokens@), old(self).pos as int)),
        decreases toks_model(old(self).tokens@).len() - old(self).pos, 1nat,
    {
        let ghost p0 = self.pos as int;
        let ghost toks = toks_model(self.tokens@);
        self.expect(TokenKind::CurlyBracketOpen)?;
        let mut statements: Vec<Statement> = Vec::new();
        assert(stmts_view(statements@) =~= Seq::<AStmt>::empty());
        while !self.check(&TokenKind::CurlyBracketClose) && !self.is_at_end()
            invariant
                toks_model(self.tokens@) == toks,
                toks == toks_model(old(self).tokens@),
                p0 == old(self).pos,
                ready_tokens(toks, self.pos as int),
                p0 < self.pos,
                s_block(toks, p0) == s_block_items(toks, stmts_view(statements@), self.pos as int),
            decreases toks.len() - self.pos,
        {
            proof {
                lemma_items_step(toks, stmts_view(statements@), self.pos as int);
            }
            let st = self.parse_statement()?;
            proof {
                lemma_stmts_view_push(statements@, st);
            }
            statements.push(st);
        }
        self.expect(TokenKind::CurlyBracketClose)?;
        Ok(Block { statements })
    }

    fn parse_param(&mut self) -> (res: Result<Param, ParseError>)
        requires
            ready_tokens(toks_model(old(self).tokens@), old(self).pos as int),
        ensures
            toks_model(final(self).tokens@) == toks_model(old(self).tokens@),
            agrees(toks_model(old(self).tokens@), old(self).pos as int, final(self).pos as int, param_ok(res), err_of(res), s_param(toks_model(old(self).tokens@), old(self).pos as int)),
    {
        let name = self.expect_identifier()?;
        self.expect(TokenKind::Colon)?;
        let typ = self.parse_type()?;
        Ok(Param { name, typ })
    }

    fn parse_param_list(&mut self) -> (res: Result<Vec<Param>, ParseError>)
        requires
            ready_tokens(toks_model(old(self).tokens@), old(self).pos as int),
        ensures
            toks_model(final(self).tokens@) == toks_model(old(self).tokens@),
            agrees(toks_model(old(self).tokens@), old(self).pos as int, final(self).pos as int, params_ok(res), err_of(res), s_param_list(toks_model(old(self).tokens@), old(self).pos as int)),
    {
        let ghost p0 = self.pos as int;
        let ghost toks = toks_model(self.tokens@);
        let mut params: Vec<Param> = Vec::new();
        let first = self.parse_param()?;
        params.push(first);
        assert(params_view(params@) =~= seq![first@]);
        while self.check(&TokenKind::Comma)
            invariant
                toks_model(self.tokens@) == toks,
                toks == toks_model(old(self).tokens@),
                p0 == old(self).pos,
                ready_tokens(toks, self.pos as int),
                p0 < self.pos,
                s_param_list(toks, p0) == s_params_tail(toks, params_view(params@), self.pos as int),
            decreases toks.len() - self.pos,
        {
            proof {
                lemma_params_step(toks, params_view(params@), self.pos as int);
            }
            self.advance();
            let x = self.parse_param()?;
            let ghost before = params@;
            params.push(x);
            assert(params_view(params@) =~= params_view(before).push(x@));
        }
        Ok(params)
    }

    fn parse_function_decl(&mut self) -> (res: Result<FunctionDecl, ParseError>)
        requires
            ready_tokens(toks_model(old(self).tokens@), old(self).pos as int),
        ensures
            toks_model(final(self).tokens@) == toks_model(old(self).tokens@),
            agrees(toks_model(old(self).tokens@), old(self).pos as int, final(self).pos as int, func_ok(res), err_of(res), s_func(toks_model(old(self).tokens@), old(self).pos as int)),
    {
        self.expect(TokenKind::FnDecl)?;
        let name = self.expect_identifier()?;
        self.expect(TokenKind::RoundBracketOpen)?;
        let params = if self.check(&TokenKind::RoundBracketClose) {
            let v: Vec<Param> = Vec::new();
            assert(params_view(v@) =~= Seq::<AParam>::empty());
            v
        } else {
            self.parse_param_list()?
        };
        self.expect(TokenKind::RoundBracketClose)?;
        let return_type = if self.check(&TokenKind::Arrow) {
            self.advance();
            Some(self.parse_type()?)
        } else {
            None
        };
        let body = self.parse_block()?;
        Ok(FunctionDecl { name, params, return_type, body })
    }

    /// The message of a parse error.
    fn error_message(&self, e: &ParseError) -> (msg: String)
        requires
            e.at < toks_model(self.tokens@).len(),
            !(e.kind is Incomplete),
        ensures
            msg@ == error_text(toks_model(self.tokens@), *e),
    {
        let t = &self.tokens[e.at];
        let mut msg = String::new();
        match &e.kind {
            ParseErrorKind::ExpectedToken(k) => {
                push_str(&mut msg, "Expected ");
                push_kind(&mut msg, k);
                push_str(&mut msg, ", got ");
            },
            ParseErrorKind::ExpectedIdentifier => push_str(&mut msg, "Expected identifier, got "),
            ParseErrorKind::ExpectedArraySize => push_str(&mut msg, "Expected number for array size, got "),
            ParseErrorKind::ExpectedType => push_str(&mut msg, "Expected type (i32, String, or [type; N]), got "),
            ParseErrorKind::UnexpectedToken => push_str(&mut msg, "Unexpected token "),
            ParseErrorKind::ExpectedItem => push_str(&mut msg, "Expected function or declaration, got "),
            ParseErrorKind::Incomplete => {},
        }
        proof {
            lemma_model_text(*t);
        }
        push_kind(&mut msg, &t.kind);
        match &e.kind {
            ParseErrorKind::UnexpectedToken => push_str(&mut msg, " in expression"),
            _ => {},
        }
        push_str(&mut msg, " at ");
        push_dec(&mut msg, t.line as u64);
        push_str(&mut msg, ":");
        push_dec(&mut msg, t.col as u64);
        assert(msg@ =~= error_text(toks_model(self.tokens@), *e));
        msg
    }

    /// Parses top-level items from the current position to the end of input
    /// (see `s_items`); an error comes as its message (see `error_text`).
    pub fn parse_program(&mut self) -> (res: Result<Program, String>)
        requires
            ready_tokens(old(self).tokens_view(), old(self).position()),
        ensures
            match s_items(old(self).tokens_view(), Seq::empty(), Seq::empty(), old(self).position()) {
                Ok(prog) => res matches Ok(p) && p@ == prog,
                Err(e) => res matches Err(msg) && msg@ == error_text(old(self).tokens_view(), e),
            },
    {
        let ghost toks = toks_model(self.tokens@);
        let mut functions: Vec<FunctionDecl> = Vec::new();
        let mut statements: Vec<Statement> = Vec::new();
        assert(funcs_view(functions@) =~= Seq::<AFunc>::empty());
        assert(stmts_view(statements@) =~= Seq::<AStmt>::empty());
        while !self.is_at_end()
            invariant
                toks_model(self.tokens@) == toks,
                toks == toks_model(old(self).tokens@),
                ready_tokens(toks, self.pos as int),
                s_items(toks, Seq::empty(), Seq::empty(), old(self).pos as int)
                    == s_items(toks, funcs_view(functions@), stmts_view(statements@), self.pos as int),
            decreases toks.len() - self.pos,
        {
            let ghost q = self.pos as int;
            match &self.tokens[self.pos].kind {
                TokenKind::FnDecl => {
                    match self.parse_function_decl() {
                        Ok(f) => {
                            let ghost before = functions@;
                            functions.push(f);
                            assert(funcs_view(functions@) =~= funcs_view(before).push(f@));
                        },
                        Err(e) => {
                            return Err(self.error_message(&e));
                        },
                    }
                },
                TokenKind::Let => {
                    match self.parse_let_stmt() {
                        Ok(st) => {
                            proof {
                                lemma_stmts_view_push(statements@, st);
                            }
                            statements.push(st);
                        },
                        Err(e) => {
                            return Err(self.error_message(&e));
                        },
                    }
                },
                _ => {
                    let e = ParseError { kind: ParseErrorKind::ExpectedItem, at: self.pos };
                    return Err(self.error_message(&e));
                },
            }
        }
        Ok(Program { functions, statements })
    }
}

} // verus!
