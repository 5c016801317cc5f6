//! The operators of Starlark expressions and assignments.

use vstd::prelude::*;

verus! {

/// An operator between two operands.
#[derive(Clone, Copy, Debug, PartialEq, Eq, Structural)]
pub enum BinaryOp {
    Arith(ArithOp),
    Bitwise(BitwiseOp),
    Cmp(CmpOp),
    Logic(LogicOp),
    MemberOp(MemberOp),
}

impl BinaryOp {
    /// The operator as it is written in source text.
    pub open spec fn text(self) -> Seq<char> {
        match self {
            BinaryOp::Arith(op) => op.text(),
            BinaryOp::Bitwise(op) => op.text(),
            BinaryOp::Cmp(op) => op.text(),
            BinaryOp::Logic(op) => op.text(),
            BinaryOp::MemberOp(op) => op.text(),
        }
    }

    /// Writes the operator.
    pub fn to_string(&self) -> (r: String)
        ensures
            r@ == self.text(),
    {
        match self {
            BinaryOp::Arith(op) => op.to_string(),
            BinaryOp::Bitwise(op) => op.to_string(),
            BinaryOp::Cmp(op) => op.to_string(),
            BinaryOp::Logic(op) => op.to_string(),
            BinaryOp::MemberOp(op) => op.to_string(),
        }
    }
}

/// An arithmetic operator.
#[derive(Clone, Copy, Debug, PartialEq, Eq, Structural)]
pub enum ArithOp {
    Add,
    Sub,
    Mul,
    Div,
    Flr,
    Mod,
}

impl ArithOp {
    /// The operator as it is written in source text.
    pub open spec fn text(self) -> Seq<char> {
        match self {
            ArithOp::Add => "+"@,
            ArithOp::Sub => "-"@,
            ArithOp::Mul => "*"@,
            ArithOp::Div => "/"@,
            ArithOp::Flr => "//"@,
            ArithOp::Mod => "%"@,
        }
    }

    /// Writes the operator.
    pub fn to_string(&self) -> (r: String)
        ensures
            r@ == self.text(),
    {
        match self {
            ArithOp::Add => "+".to_owned(),
            ArithOp::Sub => "-".to_owned(),
            ArithOp::Mul => "*".to_owned(),
            ArithOp::Div => "/".to_owned(),
            ArithOp::Flr => "//".to_owned(),
            ArithOp::Mod => "%".to_owned(),
        }
    }
}

/// An operator on bits.
#[derive(Clone, Copy, Debug, PartialEq, Eq, Structural)]
pub enum BitwiseOp {
    And,
    Or,
    Xor,
    Shl,
    Shr,
}

impl BitwiseOp {
    /// The operator as it is written in source text.
    pub open spec fn text(self) -> Seq<char> {
        match self {
            BitwiseOp::And => "&"@,
            BitwiseOp::Or => "|"@,
            BitwiseOp::Xor => "^"@,
            BitwiseOp::Shl => "<<"@,
            BitwiseOp::Shr => ">>"@,
        }
    }

    /// Writes the operator.
    pub fn to_string(&self) -> (r: String)
        ensures
            r@ == self.text(),
    {
        match self {
            BitwiseOp::And => "&".to_owned(),
            BitwiseOp::Or => "|".to_owned(),
            BitwiseOp::Xor => "^".to_owned(),
            BitwiseOp::Shl => "<<".to_owned(),
            BitwiseOp::Shr => ">>".to_owned(),
        }
    }
}

/// A comparison.
#[derive(Clone, Copy, Debug, PartialEq, Eq, Structural)]
pub enum CmpOp {
    Eq,
    Ne,
    Lt,
    Gt,
    Le,
    Ge,
}

impl CmpOp {
    /// The operator as it is written in source text.
    pub open spec fn text(self) -> Seq<char> {
        match self {
            CmpOp::Eq => "=="@,
            CmpOp::Ne => "!="@,
            CmpOp::Lt => "<"@,
            CmpOp::Gt => ">"@,
            CmpOp::Le => "<="@,
            CmpOp::Ge => ">="@,
        }
    }

    /// Writes the operator.
    pub fn to_string(&self) -> (r: String)
        ensures
            r@ == self.text(),
    {
        match self {
            CmpOp::Eq => "==".to_owned(),
            CmpOp::Ne => "!=".to_owned(),
            CmpOp::Lt => "<".to_owned(),
            CmpOp::Gt => ">".to_owned(),
            CmpOp::Le => "<=".to_owned(),
            CmpOp::Ge => ">=".to_owned(),
        }
    }
}

/// A logical connective.
#[derive(Clone, Copy, Debug, PartialEq, Eq, Structural)]
pub enum LogicOp {
    And,
    Or,
}

impl LogicOp {
    /// The operator as it is written in source text.
    pub open spec fn text(self) -> Seq<char> {
        match self {
            LogicOp::And => "and"@,
            LogicOp::Or => "or"@,
        }
    }

    /// Writes the operator.
    pub fn to_string(&self) -> (r: String)
        ensures
            r@ == self.text(),
    {
        match self {
            LogicOp::And => "and".to_owned(),
            LogicOp::Or => "or".to_owned(),
        }
    }
}

/// A membership test.
#[derive(Clone, Copy, Debug, PartialEq, Eq, Structural)]
pub enum MemberOp {
    In,
    NotIn,
}

impl MemberOp {
    /// The operator as it is written in source text.
    pub open spec fn text(self) -> Seq<char> {
        match self {
            MemberOp::In => "in"@,
            MemberOp::NotIn => "not in"@,
        }
    }

    /// Writes the operator.
    pub fn to_string(&self) -> (r: String)
        ensures
            r@ == self.text(),
    {
        match self {
            MemberOp::In => "in".to_owned(),
            MemberOp::NotIn => "not in".to_owned(),
        }
    }
}

/// The operator of an assignment statement.
#[derive(Clone, Copy, Debug, PartialEq, Eq, Structural)]
pub enum AssignOp {
    Normal,
    Arith(ArithAssignOp),
    Bitwise(BitwiseAssignOp),
}

impl AssignOp {
    /// The operator as it is written in source text.
    pub open spec fn text(self) -> Seq<char> {
        match self {
            AssignOp::Normal => "="@,
            AssignOp::Arith(op) => op.text(),
            AssignOp::Bitwise(op) => op.text(),
        }
    }

    /// Writes the operator.
    pub fn to_string(&self) -> (r: String)
        ensures
            r@ == self.text(),
    {
        match self {
            AssignOp::Normal => "=".to_owned(),
            AssignOp::Arith(op) => op.to_string(),
            AssignOp::Bitwise(op) => op.to_string(),
        }
    }
}

/// An augmented assignment with an arithmetic operator.
#[derive(Clone, Copy, Debug, PartialEq, Eq, Structural)]
pub enum ArithAssignOp {
    Add,
    Sub,
    Mul,
    Div,
    Flr,
    Mod,
}

impl ArithAssignOp {
    /// The operator as it is written in source text.
    pub open spec fn text(self) -> Seq<char> {
        match self {
            ArithAssignOp::Add => "+="@,
            ArithAssignOp::Sub => "-="@,
            ArithAssignOp::Mul => "*="@,
            ArithAssignOp::Div => "/="@,
            ArithAssignOp::Flr => "//="@,
            ArithAssignOp::Mod => "%="@,
        }
    }

    /// Writes the operator.
    pub fn to_string(&self) -> (r: String)
        ensures
            r@ == self.text(),
    {
        match self {
            ArithAssignOp::Add => "+=".to_owned(),
            ArithAssignOp::Sub => "-=".to_owned(),
            ArithAssignOp::Mul => "*=".to_owned(),
            ArithAssignOp::Div => "/=".to_owned(),
            ArithAssignOp::Flr => "//=".to_owned(),
            ArithAssignOp::Mod => "%=".to_owned(),
        }
    }
}

/// An augmented assignment with an operator on bits.
#[derive(Clone, Copy, Debug, PartialEq, Eq, Structural)]
pub enum BitwiseAssignOp {
    And,
    Or,
    Shl,
    Shr,
    Xor,
}

impl BitwiseAssignOp {
    /// The operator as it is written in source text.
    pub open spec fn text(self) -> Seq<char> {
        match self {
            BitwiseAssignOp::And => "&="@,
            BitwiseAssignOp::Or => "|="@,
            BitwiseAssignOp::Shl => "<<="@,
            BitwiseAssignOp::Shr => ">>="@,
            BitwiseAssignOp::Xor => "^="@,
        }
    }

    /// Writes the operator.
    pub fn to_string(&self) -> (r: String)
        ensures
            r@ == self.text(),
    {
        match self {
            BitwiseAssignOp::And => "&=".to_owned(),
            BitwiseAssignOp::Or => "|=".to_owned(),
            BitwiseAssignOp::Shl => "<<=".to_owned(),
            BitwiseAssignOp::Shr => ">>=".to_owned(),
            BitwiseAssignOp::Xor => "^=".to_owned(),
        }
    }
}

/// An operator before one operand.
#[derive(Clone, Copy, Debug, PartialEq, Eq, Structural, Hash)]
pub enum UnaryOp {
    Arith(UnaryArithOp),
    Inv,
    Not,
}

impl UnaryOp {
    /// The operator as it is written in source text.
    pub open spec fn text(self) -> Seq<char> {
        match self {
            UnaryOp::Arith(op) => op.text(),
            UnaryOp::Inv => "~"@,
            UnaryOp::Not => "!"@,
        }
    }

    /// Writes the operator.
    pub fn to_string(&self) -> (r: String)
        ensures
            r@ == self.text(),
    {
        match self {
            UnaryOp::Arith(op) => op.to_string(),
            UnaryOp::Inv => "~".to_owned(),
            UnaryOp::Not => "!".to_owned(),
        }
    }
}

/// A sign.
#[derive(Clone, Copy, Debug, PartialEq, Eq, Structural, Hash)]
pub enum UnaryArithOp {
    Add,
    Sub,
}

impl UnaryArithOp {
    /// The operator as it is written in source text.
    pub open spec fn text(self) -> Seq<char> {
        match self {
            UnaryArithOp::Add => "+"@,
            UnaryArithOp::Sub => "-"@,
        }
    }

    /// Writes the operator.
    pub fn to_string(&self) -> (r: String)
        ensures
            r@ == self.text(),
    {
        match self {
            UnaryArithOp::Add => "+".to_owned(),
            UnaryArithOp::Sub => "-".to_owned(),
        }
    }
}

} // verus!
