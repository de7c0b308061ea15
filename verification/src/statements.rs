//! The closed syntax-tree node model: statement variants with exact,
//! order-significant children, enumerated uniformly through `kind` and
//! `children` so that consumers can walk any tree without branching on the
//! concrete variant.

use crate::syntax::SyntaxKind;
use crate::syntax::SyntaxToken;
use vstd::prelude::*;

verus! {

/// An expression node. The expression grammar lives with the parser; the
/// statement model only needs leaf expressions to own and enumerate.
#[derive(Debug, Clone)]
pub enum ExpressionSyntax {
    Literal(LiteralExpressionSyntax),
    Name(NameExpressionSyntax),
}

/// A literal expression: one literal token.
#[derive(Debug, Clone)]
pub struct LiteralExpressionSyntax {
    pub literal_token: SyntaxToken,
}

/// A name expression: one identifier token.
#[derive(Debug, Clone)]
pub struct NameExpressionSyntax {
    pub identifier_token: SyntaxToken,
}

/// A borrowed view of an expression node.
#[derive(Debug, Clone, Copy)]
pub enum ExpressionSyntaxRef<'a> {
    Literal(&'a LiteralExpressionSyntax),
    Name(&'a NameExpressionSyntax),
}

impl<'a> ExpressionSyntaxRef<'a> {
    /// This reference points at exactly the given expression.
    pub open spec fn refers_to(self, e: ExpressionSyntax) -> bool {
        match (self, e) {
            (ExpressionSyntaxRef::Literal(a), ExpressionSyntax::Literal(b)) => *a == b,
            (ExpressionSyntaxRef::Name(a), ExpressionSyntax::Name(b)) => *a == b,
            _ => false,
        }
    }

    /// The tag of the expression variant.
    pub open spec fn kind_spec(self) -> SyntaxKind {
        match self {
            ExpressionSyntaxRef::Literal(_) => SyntaxKind::LiteralExpression,
            ExpressionSyntaxRef::Name(_) => SyntaxKind::NameExpression,
        }
    }

    /// The tag of the expression variant.
    pub fn kind(&self) -> (k: SyntaxKind)
        ensures
            k == self.kind_spec(),
    {
        match self {
            ExpressionSyntaxRef::Literal(_) => SyntaxKind::LiteralExpression,
            ExpressionSyntaxRef::Name(_) => SyntaxKind::NameExpression,
        }
    }
}

impl ExpressionSyntax {
    /// The borrowed view of this expression.
    pub fn create_ref(&self) -> (r: ExpressionSyntaxRef<'_>)
        ensures
            r.refers_to(*self),
    {
        match self {
            ExpressionSyntax::Literal(e) => ExpressionSyntaxRef::Literal(e),
            ExpressionSyntax::Name(e) => ExpressionSyntaxRef::Name(e),
        }
    }
}

/// The else part of an `if` statement: the keyword and the statement it
/// guards.
#[derive(Debug)]
pub struct ElseClauseSyntax {
    pub else_keyword: SyntaxToken,
    pub else_statement: Box<StatementSyntax>,
}

/// A statement node: a closed tagged variant over six shapes, each owning
/// its tokens and sub-trees.
#[derive(Debug)]
pub enum StatementSyntax {
    Block(BlockStatementSyntax),
    Expression(ExpressionStatementSyntax),
    For(ForStatementSyntax),
    If(IfStatementSyntax),
    VariableDeclaration(VariableDeclarationStatementSyntax),
    While(WhileStatementSyntax),
}

/// A borrowed view of a statement node.
#[derive(Debug, Clone, Copy)]
pub enum StatementSyntaxRef<'a> {
    Block(&'a BlockStatementSyntax),
    Expression(&'a ExpressionStatementSyntax),
    For(&'a ForStatementSyntax),
    If(&'a IfStatementSyntax),
    VariableDeclaration(&'a VariableDeclarationStatementSyntax),
    While(&'a WhileStatementSyntax),
}

/// A borrowed view of any child of a statement node, in traversal order.
#[derive(Debug, Clone, Copy)]
pub enum SyntaxNodeRef<'a> {
    Token(&'a SyntaxToken),
    Statement(StatementSyntaxRef<'a>),
    Expression(ExpressionSyntaxRef<'a>),
    ElseClause(&'a ElseClauseSyntax),
}

impl<'a> SyntaxNodeRef<'a> {
    /// This node is the given token.
    pub open spec fn is_token(self, t: SyntaxToken) -> bool {
        match self {
            SyntaxNodeRef::Token(x) => *x == t,
            _ => false,
        }
    }

    /// This node is a view of the given statement.
    pub open spec fn is_statement(self, s: StatementSyntax) -> bool {
        match self {
            SyntaxNodeRef::Statement(r) => r.refers_to(s),
            _ => false,
        }
    }

    /// This node is a view of the given expression.
    pub open spec fn is_expression(self, e: ExpressionSyntax) -> bool {
        match self {
            SyntaxNodeRef::Expression(r) => r.refers_to(e),
            _ => false,
        }
    }

    /// This node is the given else clause.
    pub open spec fn is_else_clause(self, c: ElseClauseSyntax) -> bool {
        match self {
            SyntaxNodeRef::ElseClause(x) => *x == c,
            _ => false,
        }
    }
}

impl StatementSyntax {
    /// The borrowed view of this statement.
    pub fn create_ref(&self) -> (r: StatementSyntaxRef<'_>)
        ensures
            r.refers_to(*self),
    {
        match self {
            StatementSyntax::Block(s) => StatementSyntaxRef::Block(s),
            StatementSyntax::Expression(s) => StatementSyntaxRef::Expression(s),
            StatementSyntax::For(s) => StatementSyntaxRef::For(s),
            StatementSyntax::If(s) => StatementSyntaxRef::If(s),
            StatementSyntax::VariableDeclaration(s) => StatementSyntaxRef::VariableDeclaration(s),
            StatementSyntax::While(s) => StatementSyntaxRef::While(s),
        }
    }
}

impl<'a> StatementSyntaxRef<'a> {
    /// This reference points at exactly the given statement.
    pub open spec fn refers_to(self, s: StatementSyntax) -> bool {
        match (self, s) {
            (StatementSyntaxRef::Block(a), StatementSyntax::Block(b)) => *a == b,
            (StatementSyntaxRef::Expression(a), StatementSyntax::Expression(b)) => *a == b,
            (StatementSyntaxRef::For(a), StatementSyntax::For(b)) => *a == b,
            (StatementSyntaxRef::If(a), StatementSyntax::If(b)) => *a == b,
            (
                StatementSyntaxRef::VariableDeclaration(a),
                StatementSyntax::VariableDeclaration(b),
            ) => *a == b,
            (StatementSyntaxRef::While(a), StatementSyntax::While(b)) => *a == b,
            _ => false,
        }
    }

    /// The tag of the statement variant.
    pub open spec fn kind_spec(self) -> SyntaxKind {
        match self {
            StatementSyntaxRef::Block(_) => SyntaxKind::BlockStatement,
            StatementSyntaxRef::Expression(_) => SyntaxKind::ExpressionStatement,
            StatementSyntaxRef::For(_) => SyntaxKind::ForStatement,
            StatementSyntaxRef::If(_) => SyntaxKind::IfStatement,
            StatementSyntaxRef::VariableDeclaration(_) => SyntaxKind::VariableDeclarationStatement,
            StatementSyntaxRef::While(_) => SyntaxKind::WhileStatement,
        }
    }

    /// The exact, order-significant children of this statement: for each
    /// variant, its tokens, expressions and sub-statements in source
    /// order, one level deep; an `if` ends with its else clause only when
    /// one is present.
    pub open spec fn children_spec(self, nodes: Seq<SyntaxNodeRef<'a>>) -> bool {
        match self {
            StatementSyntaxRef::Block(s) => {
                &&& nodes.len() == s.statements@.len() + 2
                &&& nodes[0].is_token(s.open_brace_token)
                &&& forall|i: int|
                    0 <= i < s.statements@.len() ==> (#[trigger] nodes[i + 1]).is_statement(
                        s.statements@[i],
                    )
                &&& nodes[nodes.len() - 1].is_token(s.close_brace_token)
            },
            StatementSyntaxRef::Expression(s) => {
                &&& nodes.len() == 1
                &&& nodes[0].is_expression(s.expression)
            },
            StatementSyntaxRef::For(s) => {
                &&& nodes.len() == 7
                &&& nodes[0].is_token(s.for_keyword)
                &&& nodes[1].is_token(s.identifier_token)
                &&& nodes[2].is_token(s.equals_token)
                &&& nodes[3].is_expression(s.lower_bound)
                &&& nodes[4].is_token(s.to_keyword)
                &&& nodes[5].is_expression(s.upper_bound)
                &&& nodes[6].is_statement(*s.body)
            },
            StatementSyntaxRef::If(s) => {
                &&& nodes[0].is_token(s.if_keyword)
                &&& nodes[1].is_expression(s.condition)
                &&& nodes[2].is_statement(*s.then_statement)
                &&& match s.else_clause {
                    Some(clause) => nodes.len() == 4 && nodes[3].is_else_clause(clause),
                    None => nodes.len() == 3,
                }
            },
            StatementSyntaxRef::VariableDeclaration(s) => {
                &&& nodes.len() == 4
                &&& nodes[0].is_token(s.keyword)
                &&& nodes[1].is_token(s.identifier)
                &&& nodes[2].is_token(s.equals_token)
                &&& nodes[3].is_expression(s.initializer)
            },
            StatementSyntaxRef::While(s) => {
                &&& nodes.len() == 3
                &&& nodes[0].is_token(s.keyword)
                &&& nodes[1].is_expression(s.condition)
                &&& nodes[2].is_statement(*s.body)
            },
        }
    }

    /// The tag of the statement variant.
    pub fn kind(&self) -> (k: SyntaxKind)
        ensures
            k == self.kind_spec(),
    {
        match self {
            StatementSyntaxRef::Block(_) => SyntaxKind::BlockStatement,
            StatementSyntaxRef::Expression(_) => SyntaxKind::ExpressionStatement,
            StatementSyntaxRef::For(_) => SyntaxKind::ForStatement,
            StatementSyntaxRef::If(_) => SyntaxKind::IfStatement,
            StatementSyntaxRef::VariableDeclaration(_) => SyntaxKind::VariableDeclarationStatement,
            StatementSyntaxRef::While(_) => SyntaxKind::WhileStatement,
        }
    }

    /// Enumerates the children of this statement in source order, one
    /// level deep: sub-statements appear as single nodes, never flattened.
    pub fn children(self) -> (nodes: Vec<SyntaxNodeRef<'a>>)
        ensures
            self.children_spec(nodes@),
    {
        match self {
            StatementSyntaxRef::Block(s) => {
                let mut nodes: Vec<SyntaxNodeRef<'a>> = Vec::new();
                nodes.push(SyntaxNodeRef::Token(&s.open_brace_token));
                let mut i: usize = 0;
                while i < s.statements.len()
                    invariant
                        i <= s.statements@.len(),
                        nodes@.len() == i + 1,
                        nodes@[0].is_token(s.open_brace_token),
                        forall|j: int|
                            0 <= j < i ==> (#[trigger] nodes@[j + 1]).is_statement(
                                s.statements@[j],
                            ),
                    decreases s.statements@.len() - i,
                {
                    nodes.push(SyntaxNodeRef::Statement(s.statements[i].create_ref()));
                    i = i + 1;
                }
                nodes.push(SyntaxNodeRef::Token(&s.close_brace_token));
                nodes
            },
            StatementSyntaxRef::Expression(s) => {
                let mut nodes: Vec<SyntaxNodeRef<'a>> = Vec::new();
                nodes.push(SyntaxNodeRef::Expression(s.expression.create_ref()));
                nodes
            },
            StatementSyntaxRef::For(s) => {
                let mut nodes: Vec<SyntaxNodeRef<'a>> = Vec::new();
                nodes.push(SyntaxNodeRef::Token(&s.for_keyword));
                nodes.push(SyntaxNodeRef::Token(&s.identifier_token));
                nodes.push(SyntaxNodeRef::Token(&s.equals_token));
                nodes.push(SyntaxNodeRef::Expression(s.lower_bound.create_ref()));
                nodes.push(SyntaxNodeRef::Token(&s.to_keyword));
                nodes.push(SyntaxNodeRef::Expression(s.upper_bound.create_ref()));
                nodes.push(SyntaxNodeRef::Statement(s.body.create_ref()));
                nodes
            },
            StatementSyntaxRef::If(s) => {
                let mut nodes: Vec<SyntaxNodeRef<'a>> = Vec::new();
                nodes.push(SyntaxNodeRef::Token(&s.if_keyword));
                nodes.push(SyntaxNodeRef::Expression(s.condition.create_ref()));
                nodes.push(SyntaxNodeRef::Statement(s.then_statement.create_ref()));
                match &s.else_clause {
                    Some(clause) => {
                        nodes.push(SyntaxNodeRef::ElseClause(clause));
                    },
                    None => {},
                }
                nodes
            },
            StatementSyntaxRef::VariableDeclaration(s) => {
                let mut nodes: Vec<SyntaxNodeRef<'a>> = Vec::new();
                nodes.push(SyntaxNodeRef::Token(&s.keyword));
                nodes.push(SyntaxNodeRef::Token(&s.identifier));
                nodes.push(SyntaxNodeRef::Token(&s.equals_token));
                nodes.push(SyntaxNodeRef::Expression(s.initializer.create_ref()));
                nodes
            },
            StatementSyntaxRef::While(s) => {
                let mut nodes: Vec<SyntaxNodeRef<'a>> = Vec::new();
                nodes.push(SyntaxNodeRef::Token(&s.keyword));
                nodes.push(SyntaxNodeRef::Expression(s.condition.create_ref()));
                nodes.push(SyntaxNodeRef::Statement(s.body.create_ref()));
                nodes
            },
        }
    }
}

/// A block: an open brace, the contained statements in order, a close
/// brace.
#[derive(Debug)]
pub struct BlockStatementSyntax {
    pub open_brace_token: SyntaxToken,
    pub statements: Vec<StatementSyntax>,
    pub close_brace_token: SyntaxToken,
}

/// An expression used as a statement.
#[derive(Debug)]
pub struct ExpressionStatementSyntax {
    pub expression: ExpressionSyntax,
}

/// A `for` loop: keyword, loop variable, `=`, lower bound, `to`, upper
/// bound, body.
#[derive(Debug)]
pub struct ForStatementSyntax {
    pub for_keyword: SyntaxToken,
    pub identifier_token: SyntaxToken,
    pub equals_token: SyntaxToken,
    pub lower_bound: ExpressionSyntax,
    pub to_keyword: SyntaxToken,
    pub upper_bound: ExpressionSyntax,
    pub body: Box<StatementSyntax>,
}

/// An `if` statement: keyword, condition, then-statement, and an optional
/// else clause.
#[derive(Debug)]
pub struct IfStatementSyntax {
    pub if_keyword: SyntaxToken,
    pub condition: ExpressionSyntax,
    pub then_statement: Box<StatementSyntax>,
    pub else_clause: Option<ElseClauseSyntax>,
}

/// A variable declaration: declaration keyword, name, `=`, initializer.
#[derive(Debug)]
pub struct VariableDeclarationStatementSyntax {
    pub keyword: SyntaxToken,
    pub identifier: SyntaxToken,
    pub equals_token: SyntaxToken,
    pub initializer: ExpressionSyntax,
}

/// A `while` loop: keyword, condition, body.
#[derive(Debug)]
pub struct WhileStatementSyntax {
    pub keyword: SyntaxToken,
    pub condition: ExpressionSyntax,
    pub body: Box<StatementSyntax>,
}

} // verus!
