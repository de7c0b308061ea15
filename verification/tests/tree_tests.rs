use minsk::plumbing::Object;
use minsk::plumbing::ObjectKind;
use minsk::statements::BlockStatementSyntax;
use minsk::statements::ElseClauseSyntax;
use minsk::statements::ExpressionStatementSyntax;
use minsk::statements::ExpressionSyntax;
use minsk::statements::ForStatementSyntax;
use minsk::statements::IfStatementSyntax;
use minsk::statements::LiteralExpressionSyntax;
use minsk::statements::StatementSyntax;
use minsk::statements::SyntaxNodeRef;
use minsk::statements::VariableDeclarationStatementSyntax;
use minsk::statements::WhileStatementSyntax;
use minsk::syntax::SyntaxKind;
use minsk::syntax::SyntaxToken;
use minsk::text::VariableSymbol;

fn token(kind: SyntaxKind, position: usize, text: &str) -> SyntaxToken {
    SyntaxToken::new(kind, position, text.to_string(), Object::Null)
}

fn number_expression(position: usize, text: &str, value: i64) -> ExpressionSyntax {
    ExpressionSyntax::Literal(LiteralExpressionSyntax {
        literal_token: SyntaxToken::new(
            SyntaxKind::NumberToken,
            position,
            text.to_string(),
            Object::Number(value),
        ),
    })
}

#[test]
fn block_children_are_not_flattened() {
    let inner = StatementSyntax::Expression(ExpressionStatementSyntax {
        expression: number_expression(2, "1", 1),
    });
    let block = StatementSyntax::Block(BlockStatementSyntax {
        open_brace_token: token(SyntaxKind::OpenBraceToken, 0, "{"),
        statements: vec![inner],
        close_brace_token: token(SyntaxKind::CloseBraceToken, 4, "}"),
    });
    let block_ref = block.create_ref();
    assert_eq!(block_ref.kind(), SyntaxKind::BlockStatement);
    let children = block_ref.children();
    assert_eq!(children.len(), 3);
    assert!(matches!(children[0], SyntaxNodeRef::Token(t) if t.kind == SyntaxKind::OpenBraceToken));
    match children[1] {
        SyntaxNodeRef::Statement(s) => {
            assert_eq!(s.kind(), SyntaxKind::ExpressionStatement);
            assert_eq!(s.children().len(), 1);
        }
        _ => panic!("expected a statement node"),
    }
    assert!(
        matches!(children[2], SyntaxNodeRef::Token(t) if t.kind == SyntaxKind::CloseBraceToken)
    );
}

#[test]
fn expression_statement_children() {
    let statement = StatementSyntax::Expression(ExpressionStatementSyntax {
        expression: number_expression(0, "7", 7),
    });
    let children = statement.create_ref().children();
    assert_eq!(children.len(), 1);
    match children[0] {
        SyntaxNodeRef::Expression(e) => assert_eq!(e.kind(), SyntaxKind::LiteralExpression),
        _ => panic!("expected an expression node"),
    }
}

#[test]
fn for_statement_children_order() {
    let body = StatementSyntax::Expression(ExpressionStatementSyntax {
        expression: number_expression(16, "0", 0),
    });
    let statement = StatementSyntax::For(ForStatementSyntax {
        for_keyword: token(SyntaxKind::ForKeyword, 0, "for"),
        identifier_token: token(SyntaxKind::IdentifierToken, 4, "i"),
        equals_token: token(SyntaxKind::EqualsToken, 6, "="),
        lower_bound: number_expression(8, "1", 1),
        to_keyword: token(SyntaxKind::ToKeyword, 10, "to"),
        upper_bound: number_expression(13, "10", 10),
        body: Box::new(body),
    });
    let statement_ref = statement.create_ref();
    assert_eq!(statement_ref.kind(), SyntaxKind::ForStatement);
    let children = statement_ref.children();
    assert_eq!(children.len(), 7);
    let expected_texts = ["for", "i", "="];
    for (child, text) in children.iter().zip(expected_texts) {
        assert!(matches!(child, SyntaxNodeRef::Token(t) if t.text == text));
    }
    assert!(matches!(children[3], SyntaxNodeRef::Expression(_)));
    assert!(matches!(children[4], SyntaxNodeRef::Token(t) if t.text == "to"));
    assert!(matches!(children[5], SyntaxNodeRef::Expression(_)));
    assert!(matches!(children[6], SyntaxNodeRef::Statement(_)));
}

#[test]
fn if_statement_children_with_and_without_else() {
    let make_then = || {
        Box::new(StatementSyntax::Expression(ExpressionStatementSyntax {
            expression: number_expression(5, "1", 1),
        }))
    };
    let without_else = StatementSyntax::If(IfStatementSyntax {
        if_keyword: token(SyntaxKind::IfKeyword, 0, "if"),
        condition: number_expression(3, "1", 1),
        then_statement: make_then(),
        else_clause: None,
    });
    assert_eq!(without_else.create_ref().children().len(), 3);

    let with_else = StatementSyntax::If(IfStatementSyntax {
        if_keyword: token(SyntaxKind::IfKeyword, 0, "if"),
        condition: number_expression(3, "1", 1),
        then_statement: make_then(),
        else_clause: Some(ElseClauseSyntax {
            else_keyword: token(SyntaxKind::ElseKeyword, 7, "else"),
            else_statement: Box::new(StatementSyntax::Expression(ExpressionStatementSyntax {
                expression: number_expression(12, "2", 2),
            })),
        }),
    });
    let children = with_else.create_ref().children();
    assert_eq!(children.len(), 4);
    assert!(
        matches!(children[3], SyntaxNodeRef::ElseClause(c) if c.else_keyword.text == "else")
    );
}

#[test]
fn variable_declaration_children_order() {
    let statement = StatementSyntax::VariableDeclaration(VariableDeclarationStatementSyntax {
        keyword: token(SyntaxKind::LetKeyword, 0, "let"),
        identifier: token(SyntaxKind::IdentifierToken, 4, "x"),
        equals_token: token(SyntaxKind::EqualsToken, 6, "="),
        initializer: number_expression(8, "3", 3),
    });
    let statement_ref = statement.create_ref();
    assert_eq!(statement_ref.kind(), SyntaxKind::VariableDeclarationStatement);
    let children = statement_ref.children();
    assert_eq!(children.len(), 4);
    assert!(matches!(children[0], SyntaxNodeRef::Token(t) if t.text == "let"));
    assert!(matches!(children[1], SyntaxNodeRef::Token(t) if t.text == "x"));
    assert!(matches!(children[2], SyntaxNodeRef::Token(t) if t.text == "="));
    assert!(matches!(children[3], SyntaxNodeRef::Expression(_)));
}

#[test]
fn while_statement_children_order() {
    let statement = StatementSyntax::While(WhileStatementSyntax {
        keyword: token(SyntaxKind::WhileKeyword, 0, "while"),
        condition: number_expression(6, "1", 1),
        body: Box::new(StatementSyntax::Expression(ExpressionStatementSyntax {
            expression: number_expression(8, "2", 2),
        })),
    });
    let statement_ref = statement.create_ref();
    assert_eq!(statement_ref.kind(), SyntaxKind::WhileStatement);
    let children = statement_ref.children();
    assert_eq!(children.len(), 3);
    assert!(matches!(children[0], SyntaxNodeRef::Token(t) if t.text == "while"));
    assert!(matches!(children[1], SyntaxNodeRef::Expression(_)));
    assert!(matches!(children[2], SyntaxNodeRef::Statement(_)));
}

#[test]
fn object_kind_and_accessors() {
    assert_eq!(Object::Null.kind(), ObjectKind::Null);
    assert_eq!(Object::Number(5).kind(), ObjectKind::Number);
    assert_eq!(Object::Boolean(true).kind(), ObjectKind::Boolean);
    assert_eq!(Object::Number(-3).as_number(), -3);
    assert!(Object::Boolean(true).as_boolean());
    assert!(!Object::Boolean(false).as_boolean());
}

#[test]
fn variable_symbol_fields() {
    let symbol = VariableSymbol {
        name: "count".to_string(),
        is_read_only: true,
        kind: ObjectKind::Number,
    };
    assert_eq!(symbol.name, "count");
    assert!(symbol.is_read_only);
    assert_eq!(symbol.kind, ObjectKind::Number);
}
