//! Tokens and literals.

use vstd::prelude::*;

verus! {

/// The closed set of token kinds of the language.
#[derive(Debug, Clone, Copy, PartialEq, Eq, Structural)]
pub enum TokenKind {
    // Single character tokens
    LeftParenthesis,
    RightParenthesis,
    LeftBrace,
    RightBrace,
    Comma,
    Dot,
    Minus,
    Plus,
    Semicolon,
    Slash,
    Star,
    // One or two character tokens
    Bang,
    BangEqual,
    Equal,
    EqualEqual,
    Greater,
    GreaterEqual,
    Less,
    LessEqual,
    // Literals
    Identifier,
    String,
    Number,
    // Keywords
    And,
    Class,
    Else,
    False,
    Fun,
    For,
    If,
    Nil,
    Or,
    Print,
    Return,
    Super,
    This,
    True,
    Var,
    While,
    // End of input
    EOF,
}

impl TokenKind {
    /// The upper-case name under which a kind is displayed.
    pub open spec fn name_text(self) -> Seq<char> {
        match self {
            TokenKind::LeftParenthesis => "LEFT_PAREN"@,
            TokenKind::RightParenthesis => "RIGHT_PAREN"@,
            TokenKind::LeftBrace => "LEFT_BRACE"@,
            TokenKind::RightBrace => "RIGHT_BRACE"@,
            TokenKind::Comma => "COMMA"@,
            TokenKind::Dot => "DOT"@,
            TokenKind::Minus => "MINUS"@,
            TokenKind::Plus => "PLUS"@,
            TokenKind::Semicolon => "SEMICOLON"@,
            TokenKind::Slash => "SLASH"@,
            TokenKind::Star => "STAR"@,
            TokenKind::Bang => "BANG"@,
            TokenKind::BangEqual => "BANG_EQUAL"@,
            TokenKind::Equal => "EQUAL"@,
            TokenKind::EqualEqual => "EQUAL_EQUAL"@,
            TokenKind::Greater => "GREATER"@,
            TokenKind::GreaterEqual => "GREATER_EQUAL"@,
            TokenKind::Less => "LESS"@,
            TokenKind::LessEqual => "LESS_EQUAL"@,
            TokenKind::Identifier => "IDENTIFIER"@,
            TokenKind::String => "STRING"@,
            TokenKind::Number => "NUMBER"@,
            TokenKind::And => "AND"@,
            TokenKind::Class => "CLASS"@,
            TokenKind::Else => "ELSE"@,
            TokenKind::False => "FALSE"@,
            TokenKind::Fun => "FUN"@,
            TokenKind::For => "FOR"@,
            TokenKind::If => "IF"@,
            TokenKind::Nil => "NIL"@,
            TokenKind::Or => "OR"@,
            TokenKind::Print => "PRINT"@,
            TokenKind::Return => "RETURN"@,
            TokenKind::Super => "SUPER"@,
            TokenKind::This => "THIS"@,
            TokenKind::True => "TRUE"@,
            TokenKind::Var => "VAR"@,
            TokenKind::While => "WHILE"@,
            TokenKind::EOF => "EOF"@,
        }
    }

    /// The display name of the kind.
    pub fn name(&self) -> (r: &'static str)
        ensures
            r@ == self.name_text(),
    {
        match self {
            TokenKind::LeftParenthesis => "LEFT_PAREN",
            TokenKind::RightParenthesis => "RIGHT_PAREN",
            TokenKind::LeftBrace => "LEFT_BRACE",
            TokenKind::RightBrace => "RIGHT_BRACE",
            TokenKind::Comma => "COMMA",
            TokenKind::Dot => "DOT",
            TokenKind::Minus => "MINUS",
            TokenKind::Plus => "PLUS",
            TokenKind::Semicolon => "SEMICOLON",
            TokenKind::Slash => "SLASH",
            TokenKind::Star => "STAR",
            TokenKind::Bang => "BANG",
            TokenKind::BangEqual => "BANG_EQUAL",
            TokenKind::Equal => "EQUAL",
            TokenKind::EqualEqual => "EQUAL_EQUAL",
            TokenKind::Greater => "GREATER",
            TokenKind::GreaterEqual => "GREATER_EQUAL",
            TokenKind::Less => "LESS",
            TokenKind::LessEqual => "LESS_EQUAL",
            TokenKind::Identifier => "IDENTIFIER",
            TokenKind::String => "STRING",
            TokenKind::Number => "NUMBER",
            TokenKind::And => "AND",
            TokenKind::Class => "CLASS",
            TokenKind::Else => "ELSE",
            TokenKind::False => "FALSE",
            TokenKind::Fun => "FUN",
            TokenKind::For => "FOR",
            TokenKind::If => "IF",
            TokenKind::Nil => "NIL",
            TokenKind::Or => "OR",
            TokenKind::Print => "PRINT",
            TokenKind::Return => "RETURN",
            TokenKind::Super => "SUPER",
            TokenKind::This => "THIS",
            TokenKind::True => "TRUE",
            TokenKind::Var => "VAR",
            TokenKind::While => "WHILE",
            TokenKind::EOF => "EOF",
        }
    }
}

/// A literal of the language, which is also what an expression evaluates to.
///
/// A number is held as a decimal numeral: arithmetic on numerals is not part
/// of this library and is left to its host.
#[derive(Debug, PartialEq)]
pub enum LiteralKind {
    String(String),
    Number(String),
    Bool(bool),
    Nil,
}

/// The mathematical value of a [`LiteralKind`].
pub ghost enum LiteralValue {
    String(Seq<char>),
    Number(Seq<char>),
    Bool(bool),
    Nil,
}

impl View for LiteralKind {
    type V = LiteralValue;

    open spec fn view(&self) -> LiteralValue {
        match self {
            LiteralKind::String(s) => LiteralValue::String(s@),
            LiteralKind::Number(n) => LiteralValue::Number(n@),
            LiteralKind::Bool(b) => LiteralValue::Bool(*b),
            LiteralKind::Nil => LiteralValue::Nil,
        }
    }
}

impl Clone for LiteralKind {
    fn clone(&self) -> (r: Self)
        ensures
            r == *self,
    {
        match self {
            LiteralKind::String(s) => LiteralKind::String(s.clone()),
            LiteralKind::Number(n) => LiteralKind::Number(n.clone()),
            LiteralKind::Bool(b) => LiteralKind::Bool(*b),
            LiteralKind::Nil => LiteralKind::Nil,
        }
    }
}

/// How a literal is displayed; `absent` stands for the literal that is none.
pub open spec fn literal_text(literal: LiteralValue, absent: Seq<char>) -> Seq<char> {
    match literal {
        LiteralValue::String(s) => s,
        LiteralValue::Number(n) => n,
        LiteralValue::Bool(b) => if b {
            "true"@
        } else {
            "false"@
        },
        LiteralValue::Nil => absent,
    }
}

impl LiteralKind {
    /// The text that displays the literal; `absent` is the text for the
    /// literal that is none.
    pub fn to_text(&self, absent: &str) -> (r: String)
        ensures
            r@ == literal_text(self@, absent@),
    {
        match self {
            LiteralKind::String(s) => s.clone(),
            LiteralKind::Number(n) => n.clone(),
            LiteralKind::Bool(b) => if *b {
                String::from_str("true")
            } else {
                String::from_str("false")
            },
            LiteralKind::Nil => String::from_str(absent),
        }
    }
}

/// One lexical unit of a source text.
#[derive(Debug)]
pub struct Token {
    pub kind: TokenKind,
    pub lexeme: String,
    pub literal: LiteralKind,
    pub line: usize,
}

/// The mathematical value of a [`Token`].
pub ghost struct TokenView {
    pub kind: TokenKind,
    pub lexeme: Seq<char>,
    pub literal: LiteralValue,
    pub line: usize,
}

impl View for Token {
    type V = TokenView;

    open spec fn view(&self) -> TokenView {
        TokenView {
            kind: self.kind,
            lexeme: self.lexeme@,
            literal: self.literal@,
            line: self.line,
        }
    }
}

impl Clone for Token {
    fn clone(&self) -> (r: Self)
        ensures
            r == *self,
    {
        Token {
            kind: self.kind,
            lexeme: self.lexeme.clone(),
            literal: self.literal.clone(),
            line: self.line,
        }
    }
}

impl Token {
    /// A token of `kind` with its lexeme, its literal and its line.
    pub fn new(kind: TokenKind, lexeme: String, literal: LiteralKind, line: usize) -> (r: Self)
        ensures
            r == (Token { kind, lexeme, literal, line }),
    {
        Token { kind, lexeme, literal, line }
    }

    /// The display line of the token: the name of its kind, its lexeme and
    /// its literal.
    pub fn to_string(&self) -> (r: String)
        ensures
            r@ == token_text(self@),
    {
        let mut out = String::from_str(self.kind.name());
        out.push(' ');
        out.append(self.lexeme.as_str());
        out.push(' ');
        let literal = self.literal.to_text("null");
        out.append(literal.as_str());
        proof {
            assert(out@ =~= token_text(self@));
        }
        out
    }
}

/// The display line of a token. A token without a literal shows `null` in
/// its place.
pub open spec fn token_text(token: TokenView) -> Seq<char> {
    token.kind.name_text().push(' ') + token.lexeme + seq![' '] + literal_text(
        token.literal,
        "null"@,
    )
}

/// The views of a sequence of tokens, in order.
pub open spec fn token_views(tokens: Seq<Token>) -> Seq<TokenView> {
    tokens.map_values(|t: Token| t@)
}

} // verus!
