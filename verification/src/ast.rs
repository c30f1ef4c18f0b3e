//! The syntax tree. Every expression node carries the byte offset at which
//! its source text starts and the length of that text in bytes.

use vstd::prelude::*;

verus! {

#[derive(Debug, PartialEq, Eq, Clone, Copy, Structural)]
pub enum BinOp {
    Sum,
    Substraction,
    Product,
    Division,
    Equals,
    NotEquals,
    GreaterThan,
    GreaterThanEquals,
    LessThan,
    LessThanEquals,
    Comma,
}

#[derive(Debug, PartialEq, Eq, Clone, Copy, Structural)]
pub enum UnaryOp {
    Negate,
    LogicNegate,
}

/// A literal value as written. A number is kept as the text of its lexeme.
#[derive(Debug, PartialEq, Eq)]
pub enum Literal {
    Str(String),
    Number(String),
    True,
    False,
    Nil,
}

#[allow(inconsistent_fields)]
#[derive(Debug, PartialEq, Eq)]
pub enum Expr {
    Binary { left: Box<Expr>, operator: BinOp, right: Box<Expr>, index: usize, len: usize },
    Grouping { expr: Box<Expr>, index: usize, len: usize },
    Literal { value: Literal, index: usize, len: usize },
    Unary { operator: UnaryOp, right: Box<Expr>, index: usize, len: usize },
    Ternary {
        condition: Box<Expr>,
        left: Box<Expr>,
        right: Box<Expr>,
        index: usize,
        len: usize,
    },
    Variable { index: usize, len: usize, value: String },
    Assign { index: usize, len: usize, key: String, value: Box<Expr> },
}

#[derive(Debug, PartialEq, Eq)]
pub enum Stmt {
    Expression(Expr),
    Print(Expr),
    Variable(String, Option<Expr>),
    Block(Vec<Stmt>),
}

/// What a `Literal` stands for.
pub enum LiteralView {
    Str(Seq<char>),
    Number(Seq<char>),
    True,
    False,
    Nil,
}

/// What an `Expr` stands for.
#[allow(inconsistent_fields)]
pub enum ExprView {
    Binary { left: Box<ExprView>, operator: BinOp, right: Box<ExprView>, index: nat, len: nat },
    Grouping { expr: Box<ExprView>, index: nat, len: nat },
    Literal { value: LiteralView, index: nat, len: nat },
    Unary { operator: UnaryOp, right: Box<ExprView>, index: nat, len: nat },
    Ternary {
        condition: Box<ExprView>,
        left: Box<ExprView>,
        right: Box<ExprView>,
        index: nat,
        len: nat,
    },
    Variable { index: nat, len: nat, value: Seq<char> },
    Assign { index: nat, len: nat, key: Seq<char>, value: Box<ExprView> },
}

/// What a `Stmt` stands for.
pub enum StmtView {
    Expression(ExprView),
    Print(ExprView),
    Variable(Seq<char>, Option<ExprView>),
    Block(Seq<StmtView>),
}

impl View for Literal {
    type V = LiteralView;

    open spec fn view(&self) -> LiteralView {
        match self {
            Literal::Str(text) => LiteralView::Str(text@),
            Literal::Number(text) => LiteralView::Number(text@),
            Literal::True => LiteralView::True,
            Literal::False => LiteralView::False,
            Literal::Nil => LiteralView::Nil,
        }
    }
}

impl Expr {
    /// The tree that this expression stands for.
    pub open spec fn model(self) -> ExprView
        decreases self,
    {
        match self {
            Expr::Binary { left, operator, right, index, len } => ExprView::Binary {
                left: Box::new((*left).model()),
                operator,
                right: Box::new((*right).model()),
                index: index as nat,
                len: len as nat,
            },
            Expr::Grouping { expr, index, len } => ExprView::Grouping {
                expr: Box::new((*expr).model()),
                index: index as nat,
                len: len as nat,
            },
            Expr::Literal { value, index, len } => ExprView::Literal {
                value: value@,
                index: index as nat,
                len: len as nat,
            },
            Expr::Unary { operator, right, index, len } => ExprView::Unary {
                operator,
                right: Box::new((*right).model()),
                index: index as nat,
                len: len as nat,
            },
            Expr::Ternary { condition, left, right, index, len } => ExprView::Ternary {
                condition: Box::new((*condition).model()),
                left: Box::new((*left).model()),
                right: Box::new((*right).model()),
                index: index as nat,
                len: len as nat,
            },
            Expr::Variable { index, len, value } => ExprView::Variable {
                index: index as nat,
                len: len as nat,
                value: value@,
            },
            Expr::Assign { index, len, key, value } => ExprView::Assign {
                index: index as nat,
                len: len as nat,
                key: key@,
                value: Box::new((*value).model()),
            },
        }
    }
}

impl View for Expr {
    type V = ExprView;

    open spec fn view(&self) -> ExprView {
        self.model()
    }
}

impl Stmt {
    /// The tree that this statement stands for.
    pub open spec fn model(self) -> StmtView
        decreases self,
    {
        match self {
            Stmt::Expression(e) => StmtView::Expression(e.model()),
            Stmt::Print(e) => StmtView::Print(e.model()),
            Stmt::Variable(name, init) => StmtView::Variable(
                name@,
                match init {
                    Some(e) => Some(e.model()),
                    None => None,
                },
            ),
            Stmt::Block(stmts) => StmtView::Block(
                Seq::new(
                    stmts@.len(),
                    |i: int|
                        if 0 <= i < stmts@.len() {
                            stmts@[i].model()
                        } else {
                            StmtView::Block(Seq::empty())
                        },
                ),
            ),
        }
    }
}

impl View for Stmt {
    type V = StmtView;

    open spec fn view(&self) -> StmtView {
        self.model()
    }
}

/// The views of a run of statements, in order.
pub open spec fn stmt_views(stmts: Seq<Stmt>) -> Seq<StmtView> {
    Seq::new(stmts.len(), |i: int| stmts[i]@)
}

impl ExprView {
    /// Byte offset at which the node's source text starts.
    pub open spec fn index(self) -> nat {
        match self {
            ExprView::Binary { index, .. } => index,
            ExprView::Grouping { index, .. } => index,
            ExprView::Literal { index, .. } => index,
            ExprView::Unary { index, .. } => index,
            ExprView::Ternary { index, .. } => index,
            ExprView::Variable { index, .. } => index,
            ExprView::Assign { index, .. } => index,
        }
    }

    /// Length in bytes of the node's source text.
    pub open spec fn len(self) -> nat {
        match self {
            ExprView::Binary { len, .. } => len,
            ExprView::Grouping { len, .. } => len,
            ExprView::Literal { len, .. } => len,
            ExprView::Unary { len, .. } => len,
            ExprView::Ternary { len, .. } => len,
            ExprView::Variable { len, .. } => len,
            ExprView::Assign { len, .. } => len,
        }
    }

    /// Byte offset just past the node's source text.
    pub open spec fn end(self) -> nat {
        self.index() + self.len()
    }

    /// Whether every node's span is the union of its children's spans: a
    /// node starts where its first child starts, or at its own operator or
    /// name when that comes first, and ends where its last child ends. A
    /// grouping has the span of what it holds.
    pub open spec fn well_spanned(self) -> bool
        decreases self,
    {
        match self {
            ExprView::Binary { left, right, index, len, .. } => {
                &&& left.well_spanned()
                &&& right.well_spanned()
                &&& index == left.index()
                &&& left.end() <= right.index()
                &&& index + len == right.end()
            },
            ExprView::Grouping { expr, index, len } => {
                &&& expr.well_spanned()
                &&& index == expr.index()
                &&& len == expr.len()
            },
            ExprView::Literal { .. } => true,
            ExprView::Unary { right, index, len, .. } => {
                &&& right.well_spanned()
                &&& index <= right.index()
                &&& index + len == right.end()
            },
            ExprView::Ternary { condition, left, right, index, len } => {
                &&& condition.well_spanned()
                &&& left.well_spanned()
                &&& right.well_spanned()
                &&& index == condition.index()
                &&& condition.end() <= left.index()
                &&& left.end() <= right.index()
                &&& index + len == right.end()
            },
            ExprView::Variable { .. } => true,
            ExprView::Assign { value, index, len, .. } => {
                &&& value.well_spanned()
                &&& index <= value.index()
                &&& index + len == value.end()
            },
        }
    }
}

impl StmtView {
    /// Whether every expression in the statement is well spanned.
    pub open spec fn well_spanned(self) -> bool
        decreases self,
    {
        match self {
            StmtView::Expression(e) => e.well_spanned(),
            StmtView::Print(e) => e.well_spanned(),
            StmtView::Variable(_, Some(e)) => e.well_spanned(),
            StmtView::Variable(_, None) => true,
            StmtView::Block(stmts) => forall|i: int|
                0 <= i < stmts.len() ==> (#[trigger] stmts[i]).well_spanned(),
        }
    }
}

/// Whether every expression in the statements is well spanned.
pub open spec fn all_well_spanned(stmts: Seq<StmtView>) -> bool {
    forall|i: int| 0 <= i < stmts.len() ==> (#[trigger] stmts[i]).well_spanned()
}

impl Expr {
    /// Byte offset at which the node's source text starts.
    pub fn index(&self) -> (r: usize)
        ensures
            r == self@.index(),
    {
        match self {
            Self::Literal { index, .. } => *index,
            Self::Grouping { index, .. } => *index,
            Self::Unary { index, .. } => *index,
            Self::Binary { index, .. } => *index,
            Self::Ternary { index, .. } => *index,
            Self::Variable { index, .. } => *index,
            Self::Assign { index, .. } => *index,
        }
    }

    /// Length in bytes of the node's source text.
    pub fn len(&self) -> (r: usize)
        ensures
            r == self@.len(),
    {
        match self {
            Self::Literal { len, .. } => *len,
            Self::Grouping { len, .. } => *len,
            Self::Unary { len, .. } => *len,
            Self::Binary { len, .. } => *len,
            Self::Ternary { len, .. } => *len,
            Self::Variable { len, .. } => *len,
            Self::Assign { len, .. } => *len,
        }
    }
}

} // verus!
