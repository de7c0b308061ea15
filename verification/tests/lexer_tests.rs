use minsk::lexer::Lexer;
use minsk::plumbing::Object;
use minsk::syntax::SyntaxKind;
use minsk::syntax::SyntaxToken;

fn lex_all(input: &str) -> Vec<SyntaxToken> {
    let mut lexer = Lexer::new(input);
    let mut tokens = Vec::new();
    loop {
        let token = lexer.next_token();
        let done = token.kind == SyntaxKind::EndOfFileToken;
        tokens.push(token);
        if done {
            break;
        }
    }
    tokens
}

#[test]
fn scenario_12_plus_3() {
    let mut lexer = Lexer::new("12+3");

    let t = lexer.next_token();
    assert_eq!(t.kind, SyntaxKind::NumberToken);
    assert_eq!(t.position, 0);
    assert_eq!(t.text, "12");
    assert_eq!(t.value, Object::Number(12));

    let t = lexer.next_token();
    assert_eq!(t.kind, SyntaxKind::PlusToken);
    assert_eq!(t.position, 2);
    assert_eq!(t.text, "+");

    let t = lexer.next_token();
    assert_eq!(t.kind, SyntaxKind::NumberToken);
    assert_eq!(t.position, 3);
    assert_eq!(t.text, "3");
    assert_eq!(t.value, Object::Number(3));

    let t = lexer.next_token();
    assert_eq!(t.kind, SyntaxKind::EndOfFileToken);
    assert_eq!(t.position, 4);
    assert_eq!(t.text, "");
}

#[test]
fn bang_equals_is_one_token() {
    let tokens = lex_all("!=");
    assert_eq!(tokens.len(), 2);
    assert_eq!(tokens[0].kind, SyntaxKind::BangEqualsToken);
    assert_eq!(tokens[0].text, "!=");
}

#[test]
fn bang_then_identifier_is_two_tokens() {
    let tokens = lex_all("!x");
    assert_eq!(tokens.len(), 3);
    assert_eq!(tokens[0].kind, SyntaxKind::BangToken);
    assert_eq!(tokens[0].text, "!");
    assert_eq!(tokens[1].kind, SyntaxKind::IdentifierToken);
    assert_eq!(tokens[1].text, "x");
}

#[test]
fn termination_within_input_length_plus_one() {
    let input = "let x = 10 + foo\r\n?";
    let len = input.chars().count();
    let mut lexer = Lexer::new(input);
    let mut steps = 0;
    loop {
        let token = lexer.next_token();
        steps += 1;
        if token.kind == SyntaxKind::EndOfFileToken {
            break;
        }
        assert!(steps <= len, "scanner failed to reach end of input in time");
    }
    assert!(steps <= len + 1);
    for _ in 0..3 {
        let again = lexer.next_token();
        assert_eq!(again.kind, SyntaxKind::EndOfFileToken);
        assert_eq!(again.position, len);
        assert_eq!(again.text, "");
    }
}

#[test]
fn concatenated_token_texts_reproduce_source() {
    for input in [
        "",
        "12 + 3",
        "let answer = 42",
        "if x != y { ? } \u{0} @@",
        "while true\r\n  for i = 1 to 9",
        "99999999999999999999 rest",
    ] {
        let tokens = lex_all(input);
        let rebuilt: String = tokens.iter().map(|t| t.text.as_str()).collect();
        assert_eq!(rebuilt, input);
    }
}

#[test]
fn number_in_range_parses_exactly() {
    let mut lexer = Lexer::new("9223372036854775807");
    let t = lexer.next_token();
    assert_eq!(t.kind, SyntaxKind::NumberToken);
    assert_eq!(t.value, Object::Number(i64::MAX));
    assert_eq!(lexer.diagnostics.len(), 0);
}

#[test]
fn number_out_of_range_yields_zero_and_diagnostic() {
    let mut lexer = Lexer::new("9223372036854775808");
    let t = lexer.next_token();
    assert_eq!(t.kind, SyntaxKind::NumberToken);
    assert_eq!(t.text, "9223372036854775808");
    assert_eq!(t.value, Object::Number(0));
    assert_eq!(lexer.diagnostics.len(), 1);
    assert_eq!(lexer.diagnostics[0], "ERROR: invalid i64: 9223372036854775808");
}

#[test]
fn keywords_and_identifiers() {
    let expected = [
        ("true", SyntaxKind::TrueKeyword),
        ("false", SyntaxKind::FalseKeyword),
        ("let", SyntaxKind::LetKeyword),
        ("var", SyntaxKind::VarKeyword),
        ("if", SyntaxKind::IfKeyword),
        ("else", SyntaxKind::ElseKeyword),
        ("while", SyntaxKind::WhileKeyword),
        ("for", SyntaxKind::ForKeyword),
        ("to", SyntaxKind::ToKeyword),
        ("other", SyntaxKind::IdentifierToken),
        ("truex", SyntaxKind::IdentifierToken),
        ("fo", SyntaxKind::IdentifierToken),
    ];
    for (word, kind) in expected {
        let tokens = lex_all(word);
        assert_eq!(tokens.len(), 2, "{}", word);
        assert_eq!(tokens[0].kind, kind, "{}", word);
        assert_eq!(tokens[0].text, word);
        assert_eq!(tokens[0].value, Object::Null);
    }
}

#[test]
fn whitespace_run_is_one_token() {
    let tokens = lex_all(" \t\r\n x");
    assert_eq!(tokens.len(), 3);
    assert_eq!(tokens[0].kind, SyntaxKind::WhitespaceToken);
    assert_eq!(tokens[0].text, " \t\r\n ");
    assert_eq!(tokens[1].kind, SyntaxKind::IdentifierToken);
}

#[test]
fn operators_and_punctuation() {
    let expected = [
        ("+", SyntaxKind::PlusToken),
        ("-", SyntaxKind::MinusToken),
        ("*", SyntaxKind::StarToken),
        ("/", SyntaxKind::SlashToken),
        ("(", SyntaxKind::OpenParenthesisToken),
        (")", SyntaxKind::CloseParenthesisToken),
        ("&&", SyntaxKind::AmpersandAmpersandToken),
        ("||", SyntaxKind::PipePipeToken),
        ("==", SyntaxKind::EqualsEqualsToken),
        ("=", SyntaxKind::EqualsToken),
        ("!", SyntaxKind::BangToken),
    ];
    for (text, kind) in expected {
        let tokens = lex_all(text);
        assert_eq!(tokens.len(), 2, "{}", text);
        assert_eq!(tokens[0].kind, kind, "{}", text);
        assert_eq!(tokens[0].text, text);
    }
}

#[test]
fn equals_equals_is_greedy_over_equals() {
    let tokens = lex_all("==!");
    assert_eq!(tokens.len(), 3);
    assert_eq!(tokens[0].kind, SyntaxKind::EqualsEqualsToken);
    assert_eq!(tokens[1].kind, SyntaxKind::BangToken);
}

#[test]
fn lone_ampersand_is_bad_token() {
    let mut lexer = Lexer::new("&");
    let t = lexer.next_token();
    assert_eq!(t.kind, SyntaxKind::BadToken);
    assert_eq!(t.text, "&");
    assert_eq!(lexer.diagnostics.len(), 1);
    assert_eq!(lexer.diagnostics[0], "ERROR: bad character input: '&'");
}

#[test]
fn lone_pipe_is_bad_token() {
    let tokens = lex_all("|x");
    assert_eq!(tokens[0].kind, SyntaxKind::BadToken);
    assert_eq!(tokens[0].text, "|");
}

#[test]
fn bad_character_diagnostic_message() {
    let mut lexer = Lexer::new("?");
    let t = lexer.next_token();
    assert_eq!(t.kind, SyntaxKind::BadToken);
    assert_eq!(t.position, 0);
    assert_eq!(t.text, "?");
    assert_eq!(lexer.diagnostics.len(), 1);
    assert_eq!(lexer.diagnostics[0], "ERROR: bad character input: '?'");
}

#[test]
fn every_character_consumed_once() {
    let input = "for i = 1 to 10 { x == i && !done }";
    let tokens = lex_all(input);
    let mut position = 0;
    for token in &tokens {
        assert_eq!(token.position, position);
        position += token.text.chars().count();
    }
    assert_eq!(position, input.chars().count());
}
