//! Operator precedence and grouping, as laws of the grammar: which operator
//! token binds at which level, and how a chain of three operands groups.
use vstd::prelude::*;
use crate::token::{TokModel, TokenKind, kind_tag, tag_number};
use crate::ast::{AExpr, BinaryOp, UnaryOp};
use crate::parser::{level_op, s_expr, s_binary, s_binary_tail, s_operand, s_unary, s_primary};

verus! {

/// An operator token that binds at exactly one level (0 loosest, 8 tightest)
/// as the operator `op`.
pub open spec fn binds_at(t: nat, level: nat, op: BinaryOp) -> bool {
    &&& level <= 8
    &&& level_op(level, t) == Some(op)
    &&& forall|k: nat| k != level ==> #[trigger] level_op(k, t) is None
}

/// A token that is no binary operator at any level.
pub open spec fn no_operator(t: nat) -> bool {
    forall|k: nat| #[trigger] level_op(k, t) is None
}

/// The precedence levels, loosest first: `||`; `&&`; `|`; `^`; `&`; `==` and
/// `!=`; `<`, `<=`, `>`, `>=`; `+` and `-`; `*`, `/` and `%`. The tokens that
/// end an expression are no operators.
pub proof fn lemma_operator_levels()
    ensures
        binds_at(kind_tag(TokenKind::OpOr), 0, BinaryOp::Or),
        binds_at(kind_tag(TokenKind::OpAnd), 1, BinaryOp::And),
        binds_at(kind_tag(TokenKind::OpBitOr), 2, BinaryOp::BitOr),
        binds_at(kind_tag(TokenKind::OpXor), 3, BinaryOp::Xor),
        binds_at(kind_tag(TokenKind::OpBitAnd), 4, BinaryOp::BitAnd),
        binds_at(kind_tag(TokenKind::OpEq), 5, BinaryOp::Eq),
        binds_at(kind_tag(TokenKind::OpNotEq), 5, BinaryOp::NotEq),
        binds_at(kind_tag(TokenKind::OpLessThan), 6, BinaryOp::Less),
        binds_at(kind_tag(TokenKind::OpLessOrEq), 6, BinaryOp::LessEq),
        binds_at(kind_tag(TokenKind::OpGreaterThan), 6, BinaryOp::Greater),
        binds_at(kind_tag(TokenKind::OpGreaterOrEq), 6, BinaryOp::GreaterEq),
        binds_at(kind_tag(TokenKind::OpAdd), 7, BinaryOp::Add),
        binds_at(kind_tag(TokenKind::OpSub), 7, BinaryOp::Sub),
        binds_at(kind_tag(TokenKind::OpMul), 8, BinaryOp::Mul),
        binds_at(kind_tag(TokenKind::OpDiv), 8, BinaryOp::Div),
        binds_at(kind_tag(TokenKind::OpRem), 8, BinaryOp::Rem),
        no_operator(kind_tag(TokenKind::EOF)),
        no_operator(kind_tag(TokenKind::Semicolon)),
        no_operator(kind_tag(TokenKind::RoundBracketClose)),
        no_operator(kind_tag(TokenKind::SquareBracketClose)),
        no_operator(kind_tag(TokenKind::Comma)),
        no_operator(kind_tag(TokenKind::OpNot)),
        no_operator(kind_tag(TokenKind::OpBitNot)),
{
}

/// A number token read as a unary expression.
proof fn lemma_number_unary(toks: Seq<TokModel>, q: int)
    requires
        0 <= q < toks.len(),
        toks[q].tag == tag_number(),
    ensures
        s_unary(toks, q) == Ok::<(AExpr, int), crate::parser::ParseError>((AExpr::Number(toks[q].num), q + 1)),
        s_operand(toks, 8, q) == Ok::<(AExpr, int), crate::parser::ParseError>((AExpr::Number(toks[q].num), q + 1)),
{
    assert(s_primary(toks, q) == Ok::<(AExpr, int), crate::parser::ParseError>((AExpr::Number(toks[q].num), q + 1)));
}

/// A number token alone.
proof fn lemma_number_alone(toks: Seq<TokModel>, level: nat, q: int)
    requires
        level <= 8,
        0 <= q,
        q + 1 < toks.len(),
        toks[q].tag == tag_number(),
        forall|k: nat| level <= k ==> #[trigger] level_op(k, toks[q + 1].tag) is None,
    ensures
        s_binary(toks, level, q) == Ok::<(AExpr, int), crate::parser::ParseError>((AExpr::Number(toks[q].num), q + 1)),
        s_operand(toks, level, q) == Ok::<(AExpr, int), crate::parser::ParseError>((AExpr::Number(toks[q].num), q + 1)),
    decreases 8 - level,
{
    lemma_number_unary(toks, q);
    if level < 8 {
        lemma_number_alone(toks, level + 1, q);
    }
    assert(level_op(level, toks[q + 1].tag) is None);
    assert(s_binary_tail(toks, level, AExpr::Number(toks[q].num), q + 1)
        == Ok::<(AExpr, int), crate::parser::ParseError>((AExpr::Number(toks[q].num), q + 1)));
}

/// Two number tokens joined by an operator of level `l`.
proof fn lemma_two_numbers(toks: Seq<TokModel>, level: nat, q: int, l: nat, op: BinaryOp)
    requires
        level <= 8,
        0 <= q,
        q + 3 < toks.len(),
        toks[q].tag == tag_number(),
        binds_at(toks[q + 1].tag, l, op),
        toks[q + 2].tag == tag_number(),
        no_operator(toks[q + 3].tag),
    ensures
        s_binary(toks, level, q) == if level > l {
            Ok::<(AExpr, int), crate::parser::ParseError>((AExpr::Number(toks[q].num), q + 1))
        } else {
            Ok((AExpr::Binary(Box::new(AExpr::Number(toks[q].num)), op, Box::new(AExpr::Number(toks[q + 2].num))), q + 3))
        },
    decreases 8 - level,
{
    let b = AExpr::Number(toks[q].num);
    let c = AExpr::Number(toks[q + 2].num);
    let bc = AExpr::Binary(Box::new(b), op, Box::new(c));
    if level > l {
        assert forall|k: nat| level <= k implies #[trigger] level_op(k, toks[q + 1].tag) is None by {
            assert(k != l);
        }
        lemma_number_alone(toks, level, q);
    } else {
        lemma_number_unary(toks, q);
        lemma_number_unary(toks, q + 2);
        if level < 8 {
            lemma_two_numbers(toks, level + 1, q, l, op);
            if level + 1 <= 8 {
                lemma_number_alone(toks, level + 1, q + 2);
            }
        }
        assert(level_op(level, toks[q + 3].tag) is None);
        assert(s_binary_tail(toks, level, bc, q + 3) == Ok::<(AExpr, int), crate::parser::ParseError>((bc, q + 3)));
        if level == l {
            assert(s_operand(toks, level, q) == Ok::<(AExpr, int), crate::parser::ParseError>((b, q + 1)));
            assert(s_operand(toks, level, q + 2) == Ok::<(AExpr, int), crate::parser::ParseError>((c, q + 3)));
            assert(s_binary_tail(toks, level, b, q + 1) == Ok::<(AExpr, int), crate::parser::ParseError>((bc, q + 3)));
        } else {
            assert(level_op(level, toks[q + 1].tag) is None);
            assert(s_operand(toks, level, q) == Ok::<(AExpr, int), crate::parser::ParseError>((bc, q + 3)));
        }
    }
}

/// What three numbers joined by two operators give at one level.
pub open spec fn chain_at(
    a: AExpr,
    op1: BinaryOp,
    b: AExpr,
    op2: BinaryOp,
    c: AExpr,
    l1: nat,
    l2: nat,
    level: nat,
    p: int,
) -> (AExpr, int) {
    let left = AExpr::Binary(Box::new(a), op1, Box::new(b));
    if l1 >= l2 {
        if level > l1 {
            (a, p + 1)
        } else if level > l2 {
            (left, p + 3)
        } else {
            (AExpr::Binary(Box::new(left), op2, Box::new(c)), p + 5)
        }
    } else {
        if level > l1 {
            (a, p + 1)
        } else {
            (AExpr::Binary(Box::new(a), op1, Box::new(AExpr::Binary(Box::new(b), op2, Box::new(c)))), p + 5)
        }
    }
}

proof fn lemma_three_numbers(toks: Seq<TokModel>, level: nat, p: int, l1: nat, op1: BinaryOp, l2: nat, op2: BinaryOp)
    requires
        level <= 8,
        0 <= p,
        p + 5 < toks.len(),
        toks[p].tag == tag_number(),
        binds_at(toks[p + 1].tag, l1, op1),
        toks[p + 2].tag == tag_number(),
        binds_at(toks[p + 3].tag, l2, op2),
        toks[p + 4].tag == tag_number(),
        no_operator(toks[p + 5].tag),
    ensures
        s_binary(toks, level, p) == Ok::<(AExpr, int), crate::parser::ParseError>(chain_at(
            AExpr::Number(toks[p].num), op1, AExpr::Number(toks[p + 2].num), op2, AExpr::Number(toks[p + 4].num),
            l1, l2, level, p)),
    decreases 8 - level,
{
    let a = AExpr::Number(toks[p].num);
    let b = AExpr::Number(toks[p + 2].num);
    let c = AExpr::Number(toks[p + 4].num);
    let ab = AExpr::Binary(Box::new(a), op1, Box::new(b));
    let bc = AExpr::Binary(Box::new(b), op2, Box::new(c));
    let r = chain_at(a, op1, b, op2, c, l1, l2, level, p);
    lemma_number_unary(toks, p);
    lemma_number_unary(toks, p + 2);
    lemma_number_unary(toks, p + 4);
    if level < 8 {
        lemma_three_numbers(toks, level + 1, p, l1, op1, l2, op2);
        lemma_two_numbers(toks, level + 1, p + 2, l2, op2);
        lemma_number_alone(toks, level + 1, p + 4);
    }
    assert(level_op(level, toks[p + 5].tag) is None);
    if level > l1 {
        assert forall|k: nat| level <= k implies #[trigger] level_op(k, toks[p + 1].tag) is None by {
            assert(k != l1);
        }
        lemma_number_alone(toks, level, p);
        if l1 < l2 {
            assert(r == (a, p + 1));
        }
    } else if level == l1 {
        assert(s_operand(toks, level, p) == Ok::<(AExpr, int), crate::parser::ParseError>((a, p + 1)));
        if l1 >= l2 {
            assert(s_operand(toks, level, p + 2) == Ok::<(AExpr, int), crate::parser::ParseError>((b, p + 3)));
            if level == l2 {
                assert(s_operand(toks, level, p + 4) == Ok::<(AExpr, int), crate::parser::ParseError>((c, p + 5)));
                let abc = AExpr::Binary(Box::new(ab), op2, Box::new(c));
                assert(s_binary_tail(toks, level, abc, p + 5) == Ok::<(AExpr, int), crate::parser::ParseError>((abc, p + 5)));
                assert(s_binary_tail(toks, level, ab, p + 3) == Ok::<(AExpr, int), crate::parser::ParseError>((abc, p + 5)));
            } else {
                assert(level_op(level, toks[p + 3].tag) is None);
                assert(s_binary_tail(toks, level, ab, p + 3) == Ok::<(AExpr, int), crate::parser::ParseError>((ab, p + 3)));
            }
            assert(s_binary_tail(toks, level, a, p + 1) == Ok::<(AExpr, int), crate::parser::ParseError>(r));
        } else {
            assert(s_operand(toks, level, p + 2) == Ok::<(AExpr, int), crate::parser::ParseError>((bc, p + 5)));
            let abc = AExpr::Binary(Box::new(a), op1, Box::new(bc));
            assert(s_binary_tail(toks, level, abc, p + 5) == Ok::<(AExpr, int), crate::parser::ParseError>((abc, p + 5)));
            assert(s_binary_tail(toks, level, a, p + 1) == Ok::<(AExpr, int), crate::parser::ParseError>(r));
        }
    } else {
        assert(level_op(level, toks[p + 1].tag) is None);
        if l1 >= l2 && level > l2 {
            assert(s_operand(toks, level, p) == Ok::<(AExpr, int), crate::parser::ParseError>((ab, p + 3)));
            assert(level_op(level, toks[p + 3].tag) is None);
            assert(s_binary_tail(toks, level, ab, p + 3) == Ok::<(AExpr, int), crate::parser::ParseError>((ab, p + 3)));
        } else if l1 >= l2 && level == l2 {
            assert(s_operand(toks, level, p) == Ok::<(AExpr, int), crate::parser::ParseError>((ab, p + 3)));
            assert(s_operand(toks, level, p + 4) == Ok::<(AExpr, int), crate::parser::ParseError>((c, p + 5)));
            let abc = AExpr::Binary(Box::new(ab), op2, Box::new(c));
            assert(s_binary_tail(toks, level, abc, p + 5) == Ok::<(AExpr, int), crate::parser::ParseError>((abc, p + 5)));
            assert(s_binary_tail(toks, level, ab, p + 3) == Ok::<(AExpr, int), crate::parser::ParseError>((abc, p + 5)));
        } else {
            assert(s_operand(toks, level, p) == Ok::<(AExpr, int), crate::parser::ParseError>((r.0, p + 5)));
            assert(s_binary_tail(toks, level, r.0, p + 5) == Ok::<(AExpr, int), crate::parser::ParseError>(r));
        }
    }
}

/// Precedence and grouping: three numbers joined by two binary operators
/// (followed by a token that is no operator) parse with the tighter operator
/// grouped first, and with operators of one level grouped to the left. So
/// `a + b % c` is `a + (b % c)` and `a - b + c` is `(a - b) + c`.
pub proof fn lemma_precedence(toks: Seq<TokModel>, p: int, l1: nat, op1: BinaryOp, l2: nat, op2: BinaryOp)
    requires
        0 <= p,
        p + 5 < toks.len(),
        toks[p].tag == tag_number(),
        binds_at(toks[p + 1].tag, l1, op1),
        toks[p + 2].tag == tag_number(),
        binds_at(toks[p + 3].tag, l2, op2),
        toks[p + 4].tag == tag_number(),
        no_operator(toks[p + 5].tag),
    ensures
        ({
            let a = AExpr::Number(toks[p].num);
            let b = AExpr::Number(toks[p + 2].num);
            let c = AExpr::Number(toks[p + 4].num);
            s_expr(toks, p) == Ok::<(AExpr, int), crate::parser::ParseError>((if l1 >= l2 {
                AExpr::Binary(Box::new(AExpr::Binary(Box::new(a), op1, Box::new(b))), op2, Box::new(c))
            } else {
                AExpr::Binary(Box::new(a), op1, Box::new(AExpr::Binary(Box::new(b), op2, Box::new(c))))
            }, p + 5))
        }),
{
    lemma_three_numbers(toks, 0, p, l1, op1, l2, op2);
}


/// `a + b % c` parses as `a + (b % c)`, and `a % b + c` as `(a % b) + c`.
pub proof fn lemma_remainder_binds_tighter_than_addition(toks: Seq<TokModel>, p: int)
    requires
        0 <= p,
        p + 5 < toks.len(),
        toks[p].tag == tag_number(),
        toks[p + 2].tag == tag_number(),
        toks[p + 4].tag == tag_number(),
        no_operator(toks[p + 5].tag),
    ensures
        ({
            let a = AExpr::Number(toks[p].num);
            let b = AExpr::Number(toks[p + 2].num);
            let c = AExpr::Number(toks[p + 4].num);
            &&& (toks[p + 1].tag == kind_tag(TokenKind::OpAdd) && toks[p + 3].tag == kind_tag(TokenKind::OpRem))
                ==> s_expr(toks, p) == Ok::<(AExpr, int), crate::parser::ParseError>((AExpr::Binary(Box::new(a),
                BinaryOp::Add, Box::new(AExpr::Binary(Box::new(b), BinaryOp::Rem, Box::new(c)))), p + 5))
            &&& (toks[p + 1].tag == kind_tag(TokenKind::OpRem) && toks[p + 3].tag == kind_tag(TokenKind::OpAdd))
                ==> s_expr(toks, p) == Ok::<(AExpr, int), crate::parser::ParseError>((AExpr::Binary(
                Box::new(AExpr::Binary(Box::new(a), BinaryOp::Rem, Box::new(b))), BinaryOp::Add, Box::new(c)), p + 5))
        }),
{
    lemma_operator_levels();
    if toks[p + 1].tag == kind_tag(TokenKind::OpAdd) && toks[p + 3].tag == kind_tag(TokenKind::OpRem) {
        lemma_precedence(toks, p, 7, BinaryOp::Add, 8, BinaryOp::Rem);
    }
    if toks[p + 1].tag == kind_tag(TokenKind::OpRem) && toks[p + 3].tag == kind_tag(TokenKind::OpAdd) {
        lemma_precedence(toks, p, 8, BinaryOp::Rem, 7, BinaryOp::Add);
    }
}


/// A unary expression followed by no operator of a level or tighter is a
/// whole chain of that level.
proof fn lemma_unary_alone(toks: Seq<TokModel>, level: nat, q: int, x: AExpr, q2: int)
    requires
        level <= 8,
        0 <= q < q2 < toks.len(),
        s_unary(toks, q) == Ok::<(AExpr, int), crate::parser::ParseError>((x, q2)),
        forall|k: nat| level <= k ==> #[trigger] level_op(k, toks[q2].tag) is None,
    ensures
        s_binary(toks, level, q) == Ok::<(AExpr, int), crate::parser::ParseError>((x, q2)),
    decreases 8 - level,
{
    if level < 8 {
        lemma_unary_alone(toks, level + 1, q, x, q2);
    }
    assert(level_op(level, toks[q2].tag) is None);
    assert(s_binary_tail(toks, level, x, q2) == Ok::<(AExpr, int), crate::parser::ParseError>((x, q2)));
}

/// The prefix operators: `-` is negation, `!` logical not and `~` bitwise
/// complement, and each applies to the unary expression right after it, so
/// that `-a` followed by a token that is no operator is the negation of `a`,
/// and `- - a` is the negation of the negation of `a`.
pub proof fn lemma_prefix_operators(toks: Seq<TokModel>, p: int)
    requires
        0 <= p,
        p + 2 < toks.len(),
        toks[p].tag == kind_tag(TokenKind::OpSub) || toks[p].tag == kind_tag(TokenKind::OpNot)
            || toks[p].tag == kind_tag(TokenKind::OpBitNot),
        toks[p + 1].tag == tag_number(),
        no_operator(toks[p + 2].tag),
    ensures
        ({
            let op = if toks[p].tag == kind_tag(TokenKind::OpSub) {
                UnaryOp::Neg
            } else if toks[p].tag == kind_tag(TokenKind::OpNot) {
                UnaryOp::Not
            } else {
                UnaryOp::BitNot
            };
            let x = AExpr::Unary(op, Box::new(AExpr::Number(toks[p + 1].num)));
            &&& s_unary(toks, p) == Ok::<(AExpr, int), crate::parser::ParseError>((x, p + 2))
            &&& s_expr(toks, p) == Ok::<(AExpr, int), crate::parser::ParseError>((x, p + 2))
            &&& (p >= 1 && toks[p - 1].tag == kind_tag(TokenKind::OpSub)) ==> s_unary(toks, p - 1)
                == Ok::<(AExpr, int), crate::parser::ParseError>((AExpr::Unary(UnaryOp::Neg, Box::new(x)), p + 2))
        }),
{
    lemma_number_unary(toks, p + 1);
    let op = if toks[p].tag == kind_tag(TokenKind::OpSub) {
        UnaryOp::Neg
    } else if toks[p].tag == kind_tag(TokenKind::OpNot) {
        UnaryOp::Not
    } else {
        UnaryOp::BitNot
    };
    let x = AExpr::Unary(op, Box::new(AExpr::Number(toks[p + 1].num)));
    assert(s_unary(toks, p) == Ok::<(AExpr, int), crate::parser::ParseError>((x, p + 2)));
    lemma_unary_alone(toks, 0, p, x, p + 2);
}

} // verus!
