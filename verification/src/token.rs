//! Tokens and their kinds.

use vstd::prelude::*;
use crate::text::lemma_empty_text;

verus! {

/// The kind of a token.
#[derive(Debug, Clone, Copy, PartialEq, Eq, Structural)]
pub enum TokenType {
    LeftParen,
    RightParen,
    RightBrace,
    LeftBrace,
    Comma,
    Dot,
    Plus,
    Minus,
    Semicolon,
    Slash,
    Star,
    Bang,
    BangEqual,
    Equal,
    EqualEqual,
    Greater,
    GreaterEqual,
    Less,
    LessEqual,
    Identifier,
    String,
    Number,
    And,
    Class,
    Else,
    For,
    If,
    Nil,
    Or,
    Print,
    Return,
    Super,
    This,
    True,
    False,
    Var,
    While,
    Eof,
}

/// A token: its kind, the source text it was read from (`lexeme`), the
/// value it carries (`literal`) and the line on which it starts.
#[derive(Debug, PartialEq, Eq)]
pub struct Token {
    pub token_type: TokenType,
    pub lexeme: String,
    pub literal: String,
    pub line: u64,
}

/// The mathematical value of a [`Token`].
pub ghost struct TokenView {
    pub token_type: TokenType,
    pub lexeme: Seq<char>,
    pub literal: Seq<char>,
    pub line: nat,
}

impl View for Token {
    type V = TokenView;

    open spec fn view(&self) -> TokenView {
        TokenView {
            token_type: self.token_type,
            lexeme: self.lexeme@,
            literal: self.literal@,
            line: self.line as nat,
        }
    }
}

/// The values of the tokens in `tokens`.
pub open spec fn token_views(tokens: Seq<Token>) -> Seq<TokenView> {
    Seq::new(tokens.len(), |i: int| tokens[i]@)
}

impl TokenType {
    /// Whether this is the kind of a punctuation mark or an operator.
    pub open spec fn is_symbol(self) -> bool {
        match self {
            TokenType::LeftParen
            | TokenType::RightParen
            | TokenType::LeftBrace
            | TokenType::RightBrace
            | TokenType::Comma
            | TokenType::Dot
            | TokenType::Minus
            | TokenType::Plus
            | TokenType::Semicolon
            | TokenType::Slash
            | TokenType::Star
            | TokenType::Bang
            | TokenType::BangEqual
            | TokenType::Equal
            | TokenType::EqualEqual
            | TokenType::Greater
            | TokenType::GreaterEqual
            | TokenType::Less
            | TokenType::LessEqual => true,
            _ => false,
        }
    }

    /// Whether this is the kind of a reserved word.
    pub open spec fn is_keyword(self) -> bool {
        match self {
            TokenType::And
            | TokenType::Class
            | TokenType::Else
            | TokenType::For
            | TokenType::If
            | TokenType::Nil
            | TokenType::Or
            | TokenType::Print
            | TokenType::Return
            | TokenType::Super
            | TokenType::This
            | TokenType::True
            | TokenType::False
            | TokenType::Var
            | TokenType::While => true,
            _ => false,
        }
    }

    /// Whether this is the kind of a string, a number or an identifier,
    /// whose tokens carry a text of their own.
    pub open spec fn is_literal(self) -> bool {
        match self {
            TokenType::Identifier | TokenType::String | TokenType::Number => true,
            _ => false,
        }
    }

    /// The lexeme that every token of this kind has: the characters of a
    /// punctuation mark or operator, `EOF` at the end of input, and nothing
    /// for the kinds whose tokens carry their text as a literal.
    pub open spec fn text(self) -> Seq<char> {
        match self {
            TokenType::LeftParen => "("@,
            TokenType::RightParen => ")"@,
            TokenType::LeftBrace => "{"@,
            TokenType::RightBrace => "}"@,
            TokenType::Comma => ","@,
            TokenType::Dot => "."@,
            TokenType::Minus => "-"@,
            TokenType::Plus => "+"@,
            TokenType::Semicolon => ";"@,
            TokenType::Slash => "/"@,
            TokenType::Star => "*"@,
            TokenType::Bang => "!"@,
            TokenType::BangEqual => "!="@,
            TokenType::Equal => "="@,
            TokenType::EqualEqual => "=="@,
            TokenType::Greater => ">"@,
            TokenType::GreaterEqual => ">="@,
            TokenType::Less => "<"@,
            TokenType::LessEqual => "<="@,
            TokenType::Eof => "EOF"@,
            _ => Seq::empty(),
        }
    }

    /// The lexeme that every token of this kind has.
    pub fn lexeme(self) -> (text: &'static str)
        ensures
            text@ == self.text(),
    {
        match self {
            TokenType::LeftParen => "(",
            TokenType::RightParen => ")",
            TokenType::LeftBrace => "{",
            TokenType::RightBrace => "}",
            TokenType::Comma => ",",
            TokenType::Dot => ".",
            TokenType::Minus => "-",
            TokenType::Plus => "+",
            TokenType::Semicolon => ";",
            TokenType::Slash => "/",
            TokenType::Star => "*",
            TokenType::Bang => "!",
            TokenType::BangEqual => "!=",
            TokenType::Equal => "=",
            TokenType::EqualEqual => "==",
            TokenType::Greater => ">",
            TokenType::GreaterEqual => ">=",
            TokenType::Less => "<",
            TokenType::LessEqual => "<=",
            TokenType::Eof => "EOF",
            _ => {
                proof {
                    lemma_empty_text();
                }
                ""
            },
        }
    }
}

impl Token {
    /// Makes a token from its four parts, copying the two texts.
    pub fn new(token_type: TokenType, lexeme: &str, literal: &str, line: u64) -> (token: Token)
        ensures
            token@ == (TokenView {
                token_type,
                lexeme: lexeme@,
                literal: literal@,
                line: line as nat,
            }),
    {
        Token { token_type, lexeme: lexeme.to_owned(), literal: literal.to_owned(), line }
    }
}

} // verus!
