use vstd::prelude::*;

use crate::token::Token;

verus! {

/// A name, compared by value.
#[derive(Debug, Clone, PartialEq, Eq)]
pub struct Identifier(pub String);

impl Identifier {
    pub fn new(name: &str) -> (r: Identifier)
        ensures
            r.0@ == name@,
    {
        Identifier(name.to_owned())
    }
}

#[derive(Debug, PartialEq)]
pub enum Expression {
    Identifier(Identifier),
    IntegerLiteral(i64),
    Boolean(bool),
    Prefix { operator: Token, right: Box<Expression> },
    Infix { operator: Token, left: Box<Expression>, right: Box<Expression> },
    If {
        condition: Box<Expression>,
        consequence: BlockStatement,
        alternative: Option<BlockStatement>,
    },
    /// Placeholder for a value that was not parsed.
    Nothing,
}

/// A `{ ... }` block: its opening token and its statements in source order.
#[derive(Debug, PartialEq)]
pub struct BlockStatement {
    pub token: Token,
    pub statements: Vec<Statement>,
}

#[derive(Debug, PartialEq)]
pub enum Statement {
    Let { token: Token, name: Identifier, value: Expression },
    Return { token: Token, expr: Expression },
    Expression { token: Token, expr: Expression },
}

/// The root of the tree: statements in source order.
#[derive(Debug, PartialEq)]
pub struct Program {
    pub statements: Vec<Statement>,
}

/// The mathematical form of an expression: the same tree with blocks as sequences.
pub enum ExprModel {
    Identifier(Identifier),
    IntegerLiteral(i64),
    Boolean(bool),
    Prefix { operator: Token, right: Box<ExprModel> },
    Infix { operator: Token, left: Box<ExprModel>, right: Box<ExprModel> },
    If { condition: Box<ExprModel>, consequence: BlockModel, alternative: Option<BlockModel> },
    Nothing,
}

pub struct BlockModel {
    pub token: Token,
    pub statements: Seq<StmtModel>,
}

pub enum StmtModel {
    Let { token: Token, name: Identifier, value: ExprModel },
    Return { token: Token, expr: ExprModel },
    Expression { token: Token, expr: ExprModel },
}

impl Expression {
    pub fn new_ident(name: &str) -> (r: Expression)
        ensures
            r matches Expression::Identifier(i) && i.0@ == name@,
    {
        Expression::Identifier(Identifier::new(name))
    }

    pub fn new_prefix(operator: Token, right: Expression) -> (r: Expression)
        ensures
            r == (Expression::Prefix { operator, right: Box::new(right) }),
    {
        Expression::Prefix { operator, right: Box::new(right) }
    }

    pub fn new_infix(left: Expression, operator: Token, right: Expression) -> (r: Expression)
        ensures
            r == (Expression::Infix { operator, left: Box::new(left), right: Box::new(right) }),
    {
        Expression::Infix { operator, left: Box::new(left), right: Box::new(right) }
    }

    pub open spec fn model(&self) -> ExprModel
        decreases self,
    {
        match self {
            Expression::Identifier(i) => ExprModel::Identifier(*i),
            Expression::IntegerLiteral(v) => ExprModel::IntegerLiteral(*v),
            Expression::Boolean(b) => ExprModel::Boolean(*b),
            Expression::Prefix { operator, right } => ExprModel::Prefix {
                operator: *operator,
                right: Box::new(right.model()),
            },
            Expression::Infix { operator, left, right } => ExprModel::Infix {
                operator: *operator,
                left: Box::new(left.model()),
                right: Box::new(right.model()),
            },
            Expression::If { condition, consequence, alternative } => ExprModel::If {
                condition: Box::new(condition.model()),
                consequence: consequence.model(),
                alternative: match alternative {
                    Some(b) => Some(b.model()),
                    None => None,
                },
            },
            Expression::Nothing => ExprModel::Nothing,
        }
    }
}

impl BlockStatement {
    pub open spec fn model(&self) -> BlockModel
        decreases self,
    {
        BlockModel { token: self.token, statements: stmts_model(self.statements@) }
    }
}

impl Statement {
    pub open spec fn model(&self) -> StmtModel
        decreases self,
    {
        match self {
            Statement::Let { token, name, value } => StmtModel::Let {
                token: *token,
                name: *name,
                value: value.model(),
            },
            Statement::Return { token, expr } => StmtModel::Return {
                token: *token,
                expr: expr.model(),
            },
            Statement::Expression { token, expr } => StmtModel::Expression {
                token: *token,
                expr: expr.model(),
            },
        }
    }
}

/// The models of a sequence of statements, in order.
pub open spec fn stmts_model(ss: Seq<Statement>) -> Seq<StmtModel>
    decreases ss,
{
    if ss.len() == 0 {
        Seq::empty()
    } else {
        stmts_model(ss.drop_last()).push(ss.last().model())
    }
}

impl BlockStatement {
    pub fn new(token: Token) -> (r: BlockStatement)
        ensures
            r.token == token,
            r.statements@.len() == 0,
    {
        BlockStatement { token, statements: Vec::new() }
    }
}

/// Appending a statement appends its model.
pub proof fn lemma_stmts_model_push(ss: Seq<Statement>, st: Statement)
    ensures
        stmts_model(ss.push(st)) == stmts_model(ss).push(st.model()),
{
    assert(ss.push(st).drop_last() =~= ss);
}

impl Program {
    pub fn new() -> (r: Program)
        ensures
            r.statements@.len() == 0,
    {
        Program { statements: Vec::new() }
    }

    pub open spec fn model(&self) -> Seq<StmtModel> {
        stmts_model(self.statements@)
    }
}

} // verus!
