//! The token type shared by all three stages: the exact substring matched
//! and a closed classification tag.

use vstd::prelude::*;

verus! {

/// The classification of a lexical token.
#[derive(Clone, Copy, Debug, PartialEq, Eq, Structural)]
pub enum TokenKind {
    Number,
    Identifier,
    Operator,
    LeftParen,
    RightParen,
}

/// One lexical token: the exact substring matched and its kind. Tokens are
/// produced once by the lexer and only reordered afterwards, never changed.
#[derive(Debug, PartialEq, Eq)]
pub struct Token {
    pub text: String,
    pub kind: TokenKind,
}

/// The mathematical model of a token: its text as a sequence of characters,
/// and its kind.
pub struct TokenModel {
    pub text: Seq<char>,
    pub kind: TokenKind,
}

impl View for Token {
    type V = TokenModel;

    open spec fn view(&self) -> TokenModel {
        TokenModel { text: self.text@, kind: self.kind }
    }
}

/// The models of a sequence of owned tokens.
pub open spec fn token_models(ts: Seq<Token>) -> Seq<TokenModel> {
    ts.map_values(|t: Token| t@)
}

/// The models of a sequence of borrowed tokens.
pub open spec fn token_ref_models(ts: Seq<&Token>) -> Seq<TokenModel> {
    ts.map_values(|t: &Token| t@)
}

} // verus!
