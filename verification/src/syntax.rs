//! Token-level syntax model: the closed `SyntaxKind` enumeration over token,
//! keyword, statement and expression categories, the positioned
//! `SyntaxToken` leaf, and the reserved-word table.

use crate::plumbing::Object;
use vstd::prelude::*;

verus! {

/// The closed set of all token and node tags.
#[derive(Debug, Clone, Copy, PartialEq, Eq, Structural)]
pub enum SyntaxKind {
    BadToken,
    EndOfFileToken,
    WhitespaceToken,
    NumberToken,
    IdentifierToken,
    PlusToken,
    MinusToken,
    StarToken,
    SlashToken,
    OpenParenthesisToken,
    CloseParenthesisToken,
    OpenBraceToken,
    CloseBraceToken,
    BangToken,
    AmpersandAmpersandToken,
    PipePipeToken,
    BangEqualsToken,
    EqualsEqualsToken,
    EqualsToken,
    TrueKeyword,
    FalseKeyword,
    LetKeyword,
    VarKeyword,
    IfKeyword,
    ElseKeyword,
    WhileKeyword,
    ForKeyword,
    ToKeyword,
    BlockStatement,
    ExpressionStatement,
    ForStatement,
    IfStatement,
    VariableDeclarationStatement,
    WhileStatement,
    LiteralExpression,
    NameExpression,
    ElseClause,
}

/// A classified, positioned slice of source text with a literal payload.
/// `text` is exactly the source slice the token consumed.
#[derive(Debug, Clone)]
pub struct SyntaxToken {
    pub kind: SyntaxKind,
    pub position: usize,
    pub text: String,
    pub value: Object,
}

impl SyntaxToken {
    pub fn new(kind: SyntaxKind, position: usize, text: String, value: Object) -> (t: SyntaxToken)
        ensures
            t.kind == kind,
            t.position == position,
            t.text == text,
            t.value == value,
    {
        SyntaxToken { kind, position, text, value }
    }
}

/// The kind of an alphabetic run: a reserved word's kind, or the generic
/// identifier kind when no reserved word matches.
pub open spec fn keyword_kind_spec(t: Seq<char>) -> SyntaxKind {
    if t.len() == 2 && t[0] == 'i' && t[1] == 'f' {
        SyntaxKind::IfKeyword
    } else if t.len() == 2 && t[0] == 't' && t[1] == 'o' {
        SyntaxKind::ToKeyword
    } else if t.len() == 3 && t[0] == 'l' && t[1] == 'e' && t[2] == 't' {
        SyntaxKind::LetKeyword
    } else if t.len() == 3 && t[0] == 'v' && t[1] == 'a' && t[2] == 'r' {
        SyntaxKind::VarKeyword
    } else if t.len() == 3 && t[0] == 'f' && t[1] == 'o' && t[2] == 'r' {
        SyntaxKind::ForKeyword
    } else if t.len() == 4 && t[0] == 't' && t[1] == 'r' && t[2] == 'u' && t[3] == 'e' {
        SyntaxKind::TrueKeyword
    } else if t.len() == 4 && t[0] == 'e' && t[1] == 'l' && t[2] == 's' && t[3] == 'e' {
        SyntaxKind::ElseKeyword
    } else if t.len() == 5 && t[0] == 'f' && t[1] == 'a' && t[2] == 'l' && t[3] == 's' && t[4]
        == 'e' {
        SyntaxKind::FalseKeyword
    } else if t.len() == 5 && t[0] == 'w' && t[1] == 'h' && t[2] == 'i' && t[3] == 'l' && t[4]
        == 'e' {
        SyntaxKind::WhileKeyword
    } else {
        SyntaxKind::IdentifierToken
    }
}

/// Looks the characters of `text` in `[start, end)` up in the reserved-word
/// table.
pub fn keyword_kind(text: &Vec<char>, start: usize, end: usize) -> (k: SyntaxKind)
    requires
        start <= end <= text@.len(),
    ensures
        k == keyword_kind_spec(text@.subrange(start as int, end as int)),
{
    let len = end - start;
    if len == 2 {
        let c0 = text[start];
        let c1 = text[start + 1];
        if c0 == 'i' && c1 == 'f' {
            SyntaxKind::IfKeyword
        } else if c0 == 't' && c1 == 'o' {
            SyntaxKind::ToKeyword
        } else {
            SyntaxKind::IdentifierToken
        }
    } else if len == 3 {
        let c0 = text[start];
        let c1 = text[start + 1];
        let c2 = text[start + 2];
        if c0 == 'l' && c1 == 'e' && c2 == 't' {
            SyntaxKind::LetKeyword
        } else if c0 == 'v' && c1 == 'a' && c2 == 'r' {
            SyntaxKind::VarKeyword
        } else if c0 == 'f' && c1 == 'o' && c2 == 'r' {
            SyntaxKind::ForKeyword
        } else {
            SyntaxKind::IdentifierToken
        }
    } else if len == 4 {
        let c0 = text[start];
        let c1 = text[start + 1];
        let c2 = text[start + 2];
        let c3 = text[start + 3];
        if c0 == 't' && c1 == 'r' && c2 == 'u' && c3 == 'e' {
            SyntaxKind::TrueKeyword
        } else if c0 == 'e' && c1 == 'l' && c2 == 's' && c3 == 'e' {
            SyntaxKind::ElseKeyword
        } else {
            SyntaxKind::IdentifierToken
        }
    } else if len == 5 {
        let c0 = text[start];
        let c1 = text[start + 1];
        let c2 = text[start + 2];
        let c3 = text[start + 3];
        let c4 = text[start + 4];
        if c0 == 'f' && c1 == 'a' && c2 == 'l' && c3 == 's' && c4 == 'e' {
            SyntaxKind::FalseKeyword
        } else if c0 == 'w' && c1 == 'h' && c2 == 'i' && c3 == 'l' && c4 == 'e' {
            SyntaxKind::WhileKeyword
        } else {
            SyntaxKind::IdentifierToken
        }
    } else {
        SyntaxKind::IdentifierToken
    }
}

} // verus!
