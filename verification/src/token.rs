//! Token kinds, literal values, token and diagnostic records, and their views.

use vstd::prelude::*;
use vstd::string::StringExecFns;

verus! {

/// The closed set of token kinds.
#[derive(Debug, Clone, Copy, PartialEq, Eq, Structural)]
pub enum TokenType {
    // Single-character punctuation.
    LeftParen,
    RightParen,
    LeftBrace,
    RightBrace,
    Comma,
    Dot,
    Minus,
    Plus,
    Semicolon,
    Slash,
    Star,
    // One or two character operators.
    Bang,
    BangEqual,
    Equal,
    EqualEqual,
    Greater,
    GreaterEqual,
    Less,
    LessEqual,
    // Literals.
    Identifier,
    String,
    Number,
    // Keywords.
    And,
    Class,
    Else,
    False,
    Fun,
    For,
    If,
    Nil,
    Or,
    Print,
    Return,
    Super,
    This,
    True,
    Var,
    While,
    // End of input.
    Eof,
}

/// The payload of a literal token.
///
/// A number is held as its decimal text (digits, optionally a dot and more
/// digits); turning that text into a binary floating-point value is left to
/// the caller.
#[derive(Debug, Clone, PartialEq, Eq)]
pub enum Literal {
    StringValue(String),
    NumberValue(String),
    BoolValue(bool),
    NilValue,
}

/// The mathematical value of a [`Literal`].
pub ghost enum LiteralView {
    Text(Seq<char>),
    Number(Seq<char>),
    Bool(bool),
    Nil,
}

impl View for Literal {
    type V = LiteralView;

    open spec fn view(&self) -> LiteralView {
        match *self {
            Literal::StringValue(s) => LiteralView::Text(s@),
            Literal::NumberValue(s) => LiteralView::Number(s@),
            Literal::BoolValue(b) => LiteralView::Bool(b),
            Literal::NilValue => LiteralView::Nil,
        }
    }
}

/// The view of an optional literal.
pub open spec fn literal_view(literal: Option<Literal>) -> Option<LiteralView> {
    match literal {
        Some(l) => Some(l@),
        None => None,
    }
}

/// One token: its kind, the exact source text that produced it, its literal
/// value if it has one, and the 1-based line on which it began.
#[derive(Debug, Clone, PartialEq, Eq)]
pub struct Token {
    pub token_type: TokenType,
    pub lexeme: String,
    pub literal: Option<Literal>,
    pub line: usize,
}

/// The mathematical value of a [`Token`].
pub ghost struct TokenView {
    pub kind: TokenType,
    pub lexeme: Seq<char>,
    pub literal: Option<LiteralView>,
    pub line: int,
}

impl View for Token {
    type V = TokenView;

    open spec fn view(&self) -> TokenView {
        TokenView {
            kind: self.token_type,
            lexeme: self.lexeme@,
            literal: literal_view(self.literal),
            line: self.line as int,
        }
    }
}

/// One lexical error: the line on which it was found and what it is.
#[derive(Debug, Clone, PartialEq, Eq)]
pub struct Diagnostic {
    pub line: usize,
    pub message: String,
}

/// The mathematical value of a [`Diagnostic`].
pub ghost struct DiagnosticView {
    pub line: int,
    pub message: Seq<char>,
}

impl View for Diagnostic {
    type V = DiagnosticView;

    open spec fn view(&self) -> DiagnosticView {
        DiagnosticView { line: self.line as int, message: self.message@ }
    }
}

/// The views of a sequence of tokens, in order.
pub open spec fn token_views(tokens: Seq<Token>) -> Seq<TokenView> {
    tokens.map_values(|t: Token| t@)
}

/// The views of a sequence of diagnostics, in order.
pub open spec fn diagnostic_views(diagnostics: Seq<Diagnostic>) -> Seq<DiagnosticView> {
    diagnostics.map_values(|d: Diagnostic| d@)
}

/// The name of a token kind, as it is written in the source of this library.
pub open spec fn kind_name(kind: TokenType) -> Seq<char> {
    match kind {
        TokenType::LeftParen => "LeftParen"@,
        TokenType::RightParen => "RightParen"@,
        TokenType::LeftBrace => "LeftBrace"@,
        TokenType::RightBrace => "RightBrace"@,
        TokenType::Comma => "Comma"@,
        TokenType::Dot => "Dot"@,
        TokenType::Minus => "Minus"@,
        TokenType::Plus => "Plus"@,
        TokenType::Semicolon => "Semicolon"@,
        TokenType::Slash => "Slash"@,
        TokenType::Star => "Star"@,
        TokenType::Bang => "Bang"@,
        TokenType::BangEqual => "BangEqual"@,
        TokenType::Equal => "Equal"@,
        TokenType::EqualEqual => "EqualEqual"@,
        TokenType::Greater => "Greater"@,
        TokenType::GreaterEqual => "GreaterEqual"@,
        TokenType::Less => "Less"@,
        TokenType::LessEqual => "LessEqual"@,
        TokenType::Identifier => "Identifier"@,
        TokenType::String => "String"@,
        TokenType::Number => "Number"@,
        TokenType::And => "And"@,
        TokenType::Class => "Class"@,
        TokenType::Else => "Else"@,
        TokenType::False => "False"@,
        TokenType::Fun => "Fun"@,
        TokenType::For => "For"@,
        TokenType::If => "If"@,
        TokenType::Nil => "Nil"@,
        TokenType::Or => "Or"@,
        TokenType::Print => "Print"@,
        TokenType::Return => "Return"@,
        TokenType::Super => "Super"@,
        TokenType::This => "This"@,
        TokenType::True => "True"@,
        TokenType::Var => "Var"@,
        TokenType::While => "While"@,
        TokenType::Eof => "Eof"@,
    }
}

/// How a literal is written out: `None`, or `Some(..)` around the variant and
/// its payload. The text of a string stands between double quotes, unescaped.
pub open spec fn literal_text(literal: Option<LiteralView>) -> Seq<char> {
    match literal {
        None => "None"@,
        Some(LiteralView::Text(s)) => "Some(StringValue(\""@ + s + "\"))"@,
        Some(LiteralView::Number(s)) => "Some(NumberValue("@ + s + "))"@,
        Some(LiteralView::Bool(true)) => "Some(BoolValue(true))"@,
        Some(LiteralView::Bool(false)) => "Some(BoolValue(false))"@,
        Some(LiteralView::Nil) => "Some(NilValue)"@,
    }
}

/// How a token is written out: kind, lexeme and literal, separated by a comma
/// and a space.
pub open spec fn token_text(t: TokenView) -> Seq<char> {
    kind_name(t.kind) + ", "@ + t.lexeme + ", "@ + literal_text(t.literal)
}

impl TokenType {
    /// The name of this kind.
    pub fn name(&self) -> (name: &'static str)
        ensures
            name@ == kind_name(*self),
    {
        match self {
            TokenType::LeftParen => "LeftParen",
            TokenType::RightParen => "RightParen",
            TokenType::LeftBrace => "LeftBrace",
            TokenType::RightBrace => "RightBrace",
            TokenType::Comma => "Comma",
            TokenType::Dot => "Dot",
            TokenType::Minus => "Minus",
            TokenType::Plus => "Plus",
            TokenType::Semicolon => "Semicolon",
            TokenType::Slash => "Slash",
            TokenType::Star => "Star",
            TokenType::Bang => "Bang",
            TokenType::BangEqual => "BangEqual",
            TokenType::Equal => "Equal",
            TokenType::EqualEqual => "EqualEqual",
            TokenType::Greater => "Greater",
            TokenType::GreaterEqual => "GreaterEqual",
            TokenType::Less => "Less",
            TokenType::LessEqual => "LessEqual",
            TokenType::Identifier => "Identifier",
            TokenType::String => "String",
            TokenType::Number => "Number",
            TokenType::And => "And",
            TokenType::Class => "Class",
            TokenType::Else => "Else",
            TokenType::False => "False",
            TokenType::Fun => "Fun",
            TokenType::For => "For",
            TokenType::If => "If",
            TokenType::Nil => "Nil",
            TokenType::Or => "Or",
            TokenType::Print => "Print",
            TokenType::Return => "Return",
            TokenType::Super => "Super",
            TokenType::This => "This",
            TokenType::True => "True",
            TokenType::Var => "Var",
            TokenType::While => "While",
            TokenType::Eof => "Eof",
        }
    }
}

impl Literal {
    /// Writes an optional literal out.
    pub fn describe(literal: &Option<Literal>) -> (text: String)
        ensures
            text@ == literal_text(literal_view(*literal)),
    {
        match literal {
            None => String::from_str("None"),
            Some(Literal::StringValue(s)) => {
                let mut text = String::from_str("Some(StringValue(\"");
                text.append(s.as_str());
                text.append("\"))");
                text
            },
            Some(Literal::NumberValue(s)) => {
                let mut text = String::from_str("Some(NumberValue(");
                text.append(s.as_str());
                text.append("))");
                text
            },
            Some(Literal::BoolValue(true)) => String::from_str("Some(BoolValue(true))"),
            Some(Literal::BoolValue(false)) => String::from_str("Some(BoolValue(false))"),
            Some(Literal::NilValue) => String::from_str("Some(NilValue)"),
        }
    }
}

impl Token {
    pub fn new(token_type: TokenType, lexeme: String, literal: Option<Literal>, line: usize) -> (token: Self)
        ensures
            token.token_type == token_type,
            token.lexeme == lexeme,
            token.literal == literal,
            token.line == line,
    {
        Self { token_type, lexeme, literal, line }
    }

    /// Writes the token out: kind, lexeme and literal.
    pub fn to_string(&self) -> (text: String)
        ensures
            text@ == token_text(self@),
    {
        let mut text = String::from_str(self.token_type.name());
        text.append(", ");
        text.append(self.lexeme.as_str());
        text.append(", ");
        let literal = Literal::describe(&self.literal);
        text.append(literal.as_str());
        text
    }
}

} // verus!
