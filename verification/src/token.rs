//! Tokens of the Cleo language.
use vstd::prelude::*;

verus! {

/// A half-open range of byte offsets in the source.
#[derive(Debug, Clone, Copy, PartialEq, Eq, Structural)]
pub struct Span {
    pub start: usize,
    pub end: usize,
}

/// The kind of a token; the token's text is kept in `Token::lexeme`.
#[derive(Debug, Clone, Copy, PartialEq, Eq, Structural)]
pub enum TokenKind {
    Ident,
    String,
    Integer,
    Float,
    Bool,
    // keywords
    Fn,
    Inline,
    Type,
    Struct,
    Enum,
    Trait,
    Import,
    Pub,
    If,
    Else,
    Loop,
    Let,
    Var,
    Const,
    Defer,
    Return,
    Break,
    Continue,
    As,
    SelfKw,
    // punctuation and operators
    Plus,
    Minus,
    Asterisk,
    Slash,
    Percent,
    Dot,
    DoubleColon,
    Comma,
    Colon,
    Semicolon,
    LeftParen,
    RightParen,
    LeftBrace,
    RightBrace,
    LeftBracket,
    RightBracket,
    Equal,
    EqualEqual,
    NotEqual,
    LessThan,
    GreaterThan,
    LessThanEqual,
    GreaterThanEqual,
    And,
    AndAnd,
    OrOr,
    Not,
    PlusEqual,
    MinusEqual,
    AsteriskEqual,
    SlashEqual,
    PlusPlus,
    MinusMinus,
    // layout
    Comment,
    NewLine,
    EOF,
    Unknown,
}

#[derive(Debug, PartialEq)]
pub struct Token {
    pub kind: TokenKind,
    pub lexeme: String,
    pub span: Span,
}

/// A token that owns its text; every `Token` does.
pub type OwnedToken = Token;

/// A token as a value.
pub struct TokenModel {
    pub kind: TokenKind,
    pub lexeme: Seq<char>,
    pub span: Span,
}

impl View for Token {
    type V = TokenModel;

    open spec fn view(&self) -> TokenModel {
        TokenModel { kind: self.kind, lexeme: self.lexeme@, span: self.span }
    }
}

pub open spec fn tokens_model(s: Seq<Token>) -> Seq<TokenModel> {
    s.map_values(|t: Token| t@)
}

/// The text of every token of a kind that has one fixed spelling:
/// keywords, punctuation, operators and the line break. Names, literals,
/// comments and the end of input have none.
pub open spec fn kind_spelling(k: TokenKind) -> Option<Seq<char>> {
    match k {
        TokenKind::Fn => Some("fn"@),
        TokenKind::Inline => Some("inline"@),
        TokenKind::Type => Some("type"@),
        TokenKind::Struct => Some("struct"@),
        TokenKind::Enum => Some("enum"@),
        TokenKind::Trait => Some("trait"@),
        TokenKind::Import => Some("import"@),
        TokenKind::Pub => Some("pub"@),
        TokenKind::If => Some("if"@),
        TokenKind::Else => Some("else"@),
        TokenKind::Loop => Some("loop"@),
        TokenKind::Let => Some("let"@),
        TokenKind::Var => Some("var"@),
        TokenKind::Const => Some("const"@),
        TokenKind::Defer => Some("defer"@),
        TokenKind::Return => Some("return"@),
        TokenKind::Break => Some("break"@),
        TokenKind::Continue => Some("continue"@),
        TokenKind::As => Some("as"@),
        TokenKind::SelfKw => Some("self"@),
        TokenKind::Plus => Some(seq!['+']),
        TokenKind::Minus => Some(seq!['-']),
        TokenKind::Asterisk => Some(seq!['*']),
        TokenKind::Slash => Some(seq!['/']),
        TokenKind::Percent => Some(seq!['%']),
        TokenKind::Dot => Some(seq!['.']),
        TokenKind::DoubleColon => Some(seq![':', ':']),
        TokenKind::Comma => Some(seq![',']),
        TokenKind::Colon => Some(seq![':']),
        TokenKind::Semicolon => Some(seq![';']),
        TokenKind::LeftParen => Some(seq!['(']),
        TokenKind::RightParen => Some(seq![')']),
        TokenKind::LeftBrace => Some(seq!['{']),
        TokenKind::RightBrace => Some(seq!['}']),
        TokenKind::LeftBracket => Some(seq!['[']),
        TokenKind::RightBracket => Some(seq![']']),
        TokenKind::Equal => Some(seq!['=']),
        TokenKind::EqualEqual => Some(seq!['=', '=']),
        TokenKind::NotEqual => Some(seq!['!', '=']),
        TokenKind::LessThan => Some(seq!['<']),
        TokenKind::GreaterThan => Some(seq!['>']),
        TokenKind::LessThanEqual => Some(seq!['<', '=']),
        TokenKind::GreaterThanEqual => Some(seq!['>', '=']),
        TokenKind::And => Some(seq!['&']),
        TokenKind::AndAnd => Some(seq!['&', '&']),
        TokenKind::OrOr => Some(seq!['|', '|']),
        TokenKind::Not => Some(seq!['!']),
        TokenKind::PlusEqual => Some(seq!['+', '=']),
        TokenKind::MinusEqual => Some(seq!['-', '=']),
        TokenKind::AsteriskEqual => Some(seq!['*', '=']),
        TokenKind::SlashEqual => Some(seq!['/', '=']),
        TokenKind::PlusPlus => Some(seq!['+', '+']),
        TokenKind::MinusMinus => Some(seq!['-', '-']),
        TokenKind::NewLine => Some(seq!['\n']),
        _ => None,
    }
}

#[derive(Debug, Clone, Copy, PartialEq, Eq, Structural)]
pub enum LexerError {
    InvalidCharacter { character: char, position: usize },
}

impl Token {
    /// A token of kind `Unknown` with empty text at position zero.
    pub fn unknown() -> (r: Token)
        ensures
            r@ == (TokenModel { kind: TokenKind::Unknown, lexeme: seq![], span: Span { start: 0, end: 0 } }),
    {
        Token { kind: TokenKind::Unknown, lexeme: String::new(), span: Span { start: 0, end: 0 } }
    }

    /// Whether this token has the kind `kind`.
    pub fn is_kind(&self, kind: &TokenKind) -> (r: bool)
        ensures
            r == (self.kind == *kind),
    {
        self.kind == *kind
    }

    /// A copy of this token.
    pub fn into_owned(&self) -> (r: OwnedToken)
        ensures
            r@ == self@,
    {
        Token { kind: self.kind, lexeme: self.lexeme.clone(), span: self.span }
    }
}

} // verus!
