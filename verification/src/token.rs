//! Tokens: a classified lexeme together with its literal payload and the
//! 1-based source line it was scanned on.

use crate::error::decimal_digits;
use crate::error::decimal_string;
use crate::literal::literal_render;
use crate::literal::LiteralValue;
use crate::literal::LiteralView;
use vstd::prelude::*;
use vstd::string::StringExecFns;

verus! {

/// The closed enumeration of token kinds: one- and two-character
/// punctuation and operators, the literal kinds, identifiers, the fixed
/// keyword set, and the end-of-file sentinel.
#[derive(Clone, Copy, Debug, PartialEq, Eq, Structural)]
pub enum TokenType {
    LeftParen,
    RightParen,
    LeftBrace,
    RightBrace,
    Comma,
    Dot,
    Minus,
    Plus,
    Semicolon,
    Slash,
    Star,
    Bang,
    BangEqual,
    Equal,
    EqualEqual,
    Greater,
    GreaterEqual,
    Less,
    LessEqual,
    Identifier,
    Str,
    Number,
    And,
    Class,
    Else,
    False,
    Fun,
    For,
    If,
    Nil,
    Or,
    Print,
    Return,
    Super,
    This,
    True,
    Var,
    While,
    Eof,
}

/// Specification-level value of a [`Token`]: kind, lexeme characters,
/// literal payload view, and line number as a mathematical integer.
pub struct TokenView {
    pub kind: TokenType,
    pub text: Seq<char>,
    pub literal: LiteralView,
    pub line: int,
}

/// One token: its kind, the exact source substring that formed it, the
/// literal payload (meaningful for number and string tokens), and the
/// 1-based line the token ended on.
#[derive(Debug)]
pub struct Token {
    pub token_type: TokenType,
    pub lexeme: String,
    pub literal: LiteralValue,
    pub line: usize,
}

impl View for Token {
    type V = TokenView;

    open spec fn view(&self) -> TokenView {
        TokenView {
            kind: self.token_type,
            text: self.lexeme@,
            literal: self.literal@,
            line: self.line as int,
        }
    }
}

/// The printed name of a token kind.
pub open spec fn spec_kind_name(k: TokenType) -> Seq<char> {
    match k {
        TokenType::LeftParen => "LeftParen"@,
        TokenType::RightParen => "RightParen"@,
        TokenType::LeftBrace => "LeftBrace"@,
        TokenType::RightBrace => "RightBrace"@,
        TokenType::Comma => "Comma"@,
        TokenType::Dot => "Dot"@,
        TokenType::Minus => "Minus"@,
        TokenType::Plus => "Plus"@,
        TokenType::Semicolon => "Semicolon"@,
        TokenType::Slash => "Slash"@,
        TokenType::Star => "Star"@,
        TokenType::Bang => "Bang"@,
        TokenType::BangEqual => "BangEqual"@,
        TokenType::Equal => "Equal"@,
        TokenType::EqualEqual => "EqualEqual"@,
        TokenType::Greater => "Greater"@,
        TokenType::GreaterEqual => "GreaterEqual"@,
        TokenType::Less => "Less"@,
        TokenType::LessEqual => "LessEqual"@,
        TokenType::Identifier => "Identifier"@,
        TokenType::Str => "Str"@,
        TokenType::Number => "Number"@,
        TokenType::And => "And"@,
        TokenType::Class => "Class"@,
        TokenType::Else => "Else"@,
        TokenType::False => "False"@,
        TokenType::Fun => "Fun"@,
        TokenType::For => "For"@,
        TokenType::If => "If"@,
        TokenType::Nil => "Nil"@,
        TokenType::Or => "Or"@,
        TokenType::Print => "Print"@,
        TokenType::Return => "Return"@,
        TokenType::Super => "Super"@,
        TokenType::This => "This"@,
        TokenType::True => "True"@,
        TokenType::Var => "Var"@,
        TokenType::While => "While"@,
        TokenType::Eof => "Eof"@,
    }
}

/// The printed name of a token kind.
pub fn kind_name(k: TokenType) -> (r: &'static str)
    ensures
        r@ == spec_kind_name(k),
{
    match k {
        TokenType::LeftParen => "LeftParen",
        TokenType::RightParen => "RightParen",
        TokenType::LeftBrace => "LeftBrace",
        TokenType::RightBrace => "RightBrace",
        TokenType::Comma => "Comma",
        TokenType::Dot => "Dot",
        TokenType::Minus => "Minus",
        TokenType::Plus => "Plus",
        TokenType::Semicolon => "Semicolon",
        TokenType::Slash => "Slash",
        TokenType::Star => "Star",
        TokenType::Bang => "Bang",
        TokenType::BangEqual => "BangEqual",
        TokenType::Equal => "Equal",
        TokenType::EqualEqual => "EqualEqual",
        TokenType::Greater => "Greater",
        TokenType::GreaterEqual => "GreaterEqual",
        TokenType::Less => "Less",
        TokenType::LessEqual => "LessEqual",
        TokenType::Identifier => "Identifier",
        TokenType::Str => "Str",
        TokenType::Number => "Number",
        TokenType::And => "And",
        TokenType::Class => "Class",
        TokenType::Else => "Else",
        TokenType::False => "False",
        TokenType::Fun => "Fun",
        TokenType::For => "For",
        TokenType::If => "If",
        TokenType::Nil => "Nil",
        TokenType::Or => "Or",
        TokenType::Print => "Print",
        TokenType::Return => "Return",
        TokenType::Super => "Super",
        TokenType::This => "This",
        TokenType::True => "True",
        TokenType::Var => "Var",
        TokenType::While => "While",
        TokenType::Eof => "Eof",
    }
}

/// The one-line description of a token: kind, lexeme, literal payload and
/// line number.
pub open spec fn spec_token_describe(t: TokenView) -> Seq<char> {
    "token_type: "@ + spec_kind_name(t.kind) + ", lexeme: "@ + t.text + ", literal: "@
        + literal_render(t.literal) + ", line: "@ + decimal_digits(t.line as nat)
}

/// The views of a sequence of tokens, element by element.
pub open spec fn token_views(ts: Seq<Token>) -> Seq<TokenView> {
    ts.map_values(|t: Token| t@)
}

/// Viewing a token sequence commutes with appending one token.
pub broadcast proof fn lemma_token_views_push(ts: Seq<Token>, t: Token)
    ensures
        #[trigger] token_views(ts.push(t)) == token_views(ts).push(t@),
{
    assert(token_views(ts.push(t)) =~= token_views(ts).push(t@));
}

impl Token {
    /// Describes this token in one line, as [`spec_token_describe`] says.
    pub fn render(&self) -> (r: String)
        ensures
            r@ == spec_token_describe(self@),
    {
        let mut r = "token_type: ".to_owned();
        r.append(kind_name(self.token_type));
        r.append(", lexeme: ");
        r.append(self.lexeme.as_str());
        r.append(", literal: ");
        r.append(self.literal.render().as_str());
        r.append(", line: ");
        r.append(decimal_string(self.line).as_str());
        proof {
            assert(r@ =~= spec_token_describe(self@));
        }
        r
    }

    /// Packs the four parts of a token.
    pub fn new(token_type: TokenType, lexeme: String, literal: LiteralValue, line: usize) -> (r:
        Self)
        ensures
            r@ == (TokenView { kind: token_type, text: lexeme@, literal: literal@, line: line as int }),
    {
        Self { token_type, lexeme, literal, line }
    }
}

impl Clone for Token {
    fn clone(&self) -> (r: Self)
        ensures
            r@ == self@,
    {
        Token {
            token_type: self.token_type,
            lexeme: self.lexeme.clone(),
            literal: self.literal.clone(),
            line: self.line,
        }
    }
}

} // verus!
