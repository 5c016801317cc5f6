//! What holds of operators: how they are written, and which ones Starlark has.

use vstd::prelude::*;

use crate::lower_spec::{assign_op_of, binary_op_of, compare_op_of, logic_op_of, unary_op_of};
use crate::ops::AssignOp;
use crate::syntax::{BoolOp, Comparison, Operator, PrefixOp};

verus! {

/// How an operator between two operands is written.
pub open spec fn written(op: Operator) -> Seq<char> {
    match op {
        Operator::Add => "+"@,
        Operator::Sub => "-"@,
        Operator::Mult => "*"@,
        Operator::MatMult => "@"@,
        Operator::Div => "/"@,
        Operator::FloorDiv => "//"@,
        Operator::Mod => "%"@,
        Operator::Pow => "**"@,
        Operator::LShift => "<<"@,
        Operator::RShift => ">>"@,
        Operator::BitOr => "|"@,
        Operator::BitXor => "^"@,
        Operator::BitAnd => "&"@,
    }
}

/// How a comparison is written.
pub open spec fn written_comparison(op: Comparison) -> Seq<char> {
    match op {
        Comparison::Eq => "=="@,
        Comparison::NotEq => "!="@,
        Comparison::Lt => "<"@,
        Comparison::LtE => "<="@,
        Comparison::Gt => ">"@,
        Comparison::GtE => ">="@,
        Comparison::Is => "is"@,
        Comparison::IsNot => "is not"@,
        Comparison::In => "in"@,
        Comparison::NotIn => "not in"@,
    }
}

/// An operator stands for the one that is written like it. Starlark has all but powers
/// and matrix products.
pub proof fn operators_are_kept(op: Operator)
    ensures
        binary_op_of(op) is Some <==> op != Operator::Pow && op != Operator::MatMult,
        binary_op_of(op) matches Some(kept) ==> kept.text() == written(op),
{
}

/// An augmented assignment is written as its operator and an equals sign, and Starlark
/// has it exactly if it has the operator.
pub proof fn augmented_assignments_are_kept(op: Operator)
    ensures
        assign_op_of(op) is Some <==> binary_op_of(op) is Some,
        assign_op_of(op) matches Some(kept) ==> kept.text() == written(op) + "="@,
        binary_op_of(op) matches Some(kept) ==> assign_op_of(op)->0.text() == kept.text() + "="@,
{
    reveal_strlit("=");
    reveal_strlit("+");
    reveal_strlit("-");
    reveal_strlit("*");
    reveal_strlit("/");
    reveal_strlit("//");
    reveal_strlit("%");
    reveal_strlit("<<");
    reveal_strlit(">>");
    reveal_strlit("|");
    reveal_strlit("^");
    reveal_strlit("&");
    reveal_strlit("+=");
    reveal_strlit("-=");
    reveal_strlit("*=");
    reveal_strlit("/=");
    reveal_strlit("//=");
    reveal_strlit("%=");
    reveal_strlit("<<=");
    reveal_strlit(">>=");
    reveal_strlit("|=");
    reveal_strlit("^=");
    reveal_strlit("&=");
    if let Some(kept) = assign_op_of(op) {
        assert(kept.text() =~= written(op) + "="@);
    }
}

/// A comparison stands for the one that is written like it. Starlark has all but the
/// test for identity.
pub proof fn comparisons_are_kept(op: Comparison)
    ensures
        compare_op_of(op) is Some <==> op != Comparison::Is && op != Comparison::IsNot,
        compare_op_of(op) matches Some(kept) ==> kept.text() == written_comparison(op),
{
}

/// A connective and a prefix stand for those that are written like them.
pub proof fn connectives_are_kept(op: BoolOp, prefix: PrefixOp)
    ensures
        logic_op_of(op).text() == match op {
            BoolOp::And => "and"@,
            BoolOp::Or => "or"@,
        },
        unary_op_of(prefix) is Not <==> prefix == PrefixOp::Not,
        prefix != PrefixOp::Not ==> unary_op_of(prefix).text() == match prefix {
            PrefixOp::Invert => "~"@,
            PrefixOp::UAdd => "+"@,
            _ => "-"@,
        },
{
}

/// An assignment without an operator is written with an equals sign.
pub proof fn assignments_are_written_with_equals(op: AssignOp)
    ensures
        op.text() == "="@ <==> op is Normal,
        op.text().last() == '=',
{
    reveal_strlit("=");
    reveal_strlit("+=");
    reveal_strlit("-=");
    reveal_strlit("*=");
    reveal_strlit("/=");
    reveal_strlit("//=");
    reveal_strlit("%=");
    reveal_strlit("<<=");
    reveal_strlit(">>=");
    reveal_strlit("|=");
    reveal_strlit("^=");
    reveal_strlit("&=");
}

} // verus!
