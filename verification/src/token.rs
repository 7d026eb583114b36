//! Tokens: the lexical units of the language, their canonical spellings and
//! the place in the source where each one starts.

use crate::text::{all_digits, chars_of, decimal_value, int_to_string, render_int, spells};
use vstd::prelude::*;
use vstd::std_specs::cmp::PartialEqSpecImpl;

verus! {

/// A token kind as a mathematical value: an identifier carries its text and
/// an integer its value; every other kind is a bare tag.
pub enum Kind {
    Illegal,
    Eof,
    Ident(Seq<char>),
    Int(int),
    Assign,
    Plus,
    Minus,
    Bang,
    Asterisk,
    Slash,
    LessThan,
    GreaterThan,
    Equal,
    NotEqual,
    Comma,
    Semicolon,
    LParen,
    RParen,
    LBrace,
    RBrace,
    Function,
    Let,
    True,
    False,
    If,
    Else,
    Return,
}

impl Kind {
    /// A fixed kind has one spelling; identifiers and integers carry data.
    pub open spec fn is_fixed(self) -> bool {
        !(self is Ident) && !(self is Int)
    }

    /// Whether the kind is one of the seven keywords.
    pub open spec fn is_keyword(self) -> bool {
        self is Function || self is Let || self is True || self is False || self is If
            || self is Else || self is Return
    }

    /// The canonical literal of a token of this kind: the fixed spelling of a
    /// fixed kind, the text of an identifier, the decimal rendering of an
    /// integer.
    pub open spec fn spelling(self) -> Seq<char> {
        match self {
            Kind::Illegal => "ILLEGAL"@,
            Kind::Eof => ""@,
            Kind::Ident(text) => text,
            Kind::Int(value) => render_int(value),
            Kind::Assign => "="@,
            Kind::Plus => "+"@,
            Kind::Minus => "-"@,
            Kind::Bang => "!"@,
            Kind::Asterisk => "*"@,
            Kind::Slash => "/"@,
            Kind::LessThan => "<"@,
            Kind::GreaterThan => ">"@,
            Kind::Equal => "=="@,
            Kind::NotEqual => "!="@,
            Kind::Comma => ","@,
            Kind::Semicolon => ";"@,
            Kind::LParen => "("@,
            Kind::RParen => ")"@,
            Kind::LBrace => "{"@,
            Kind::RBrace => "}"@,
            Kind::Function => "FUNCTION"@,
            Kind::Let => "LET"@,
            Kind::True => "TRUE"@,
            Kind::False => "FALSE"@,
            Kind::If => "IF"@,
            Kind::Else => "ELSE"@,
            Kind::Return => "RETURN"@,
        }
    }

    /// The name under which the kind appears in diagnostics.
    pub open spec fn name(self) -> Seq<char> {
        match self {
            Kind::Illegal => "ILLEGAL"@,
            Kind::Eof => "EOF"@,
            Kind::Ident(text) => "IDENT = "@ + text,
            Kind::Int(value) => "INT = "@ + render_int(value),
            Kind::Assign => "ASSIGN"@,
            Kind::Plus => "PLUS"@,
            Kind::Minus => "MINUS"@,
            Kind::Bang => "BANG"@,
            Kind::Asterisk => "ASTERISK"@,
            Kind::Slash => "SLASH"@,
            Kind::LessThan => "LT"@,
            Kind::GreaterThan => "GT"@,
            Kind::Equal => "EQ"@,
            Kind::NotEqual => "NEQ"@,
            Kind::Comma => "COMMA"@,
            Kind::Semicolon => "SEMICOLON"@,
            Kind::LParen => "LPAREN"@,
            Kind::RParen => "RPAREN"@,
            Kind::LBrace => "LBRACE"@,
            Kind::RBrace => "RBRACE"@,
            Kind::Function => "FUNCTION"@,
            Kind::Let => "LET"@,
            Kind::True => "TRUE"@,
            Kind::False => "FALSE"@,
            Kind::If => "IF"@,
            Kind::Else => "ELSE"@,
            Kind::Return => "RETURN"@,
        }
    }
}

/// The keyword that `word` spells, if it spells one. The table is fixed and
/// case-sensitive.
pub open spec fn keyword(word: Seq<char>) -> Option<Kind> {
    if word == "let"@ {
        Some(Kind::Let)
    } else if word == "fn"@ {
        Some(Kind::Function)
    } else if word == "true"@ {
        Some(Kind::True)
    } else if word == "false"@ {
        Some(Kind::False)
    } else if word == "if"@ {
        Some(Kind::If)
    } else if word == "else"@ {
        Some(Kind::Else)
    } else if word == "return"@ {
        Some(Kind::Return)
    } else {
        None
    }
}

/// The kind of the word `word`: its keyword kind when it spells a keyword,
/// an identifier with that text otherwise.
pub open spec fn word_kind(word: Seq<char>) -> Kind {
    match keyword(word) {
        Some(kind) => kind,
        None => Kind::Ident(word),
    }
}

/// Whether `literal` is a way of writing the integer `value`: its decimal
/// rendering, or a run of digits (leading zeros allowed) with that value.
pub open spec fn denotes(literal: Seq<char>, value: int) -> bool {
    literal == render_int(value) || (literal.len() > 0 && all_digits(literal) && decimal_value(
        literal,
    ) == value)
}

/// The kind of a token.
#[allow(non_camel_case_types)]
#[derive(Debug)]
pub enum TokenKind {
    ILLEGAL,
    EOF,
    // Identifiers + literals
    IDENT(String),
    INT(i128),
    // Operators
    ASSIGN,
    PLUS,
    MINUS,
    BANG,
    ASTERISK,
    SLASH,
    LT,
    GT,
    EQ,
    NEQ,
    // Delimiters
    COMMA,
    SEMICOLON,
    LPAREN,
    RPAREN,
    LBRACE,
    RBRACE,
    // Keywords
    FUNCTION,
    LET,
    TRUE,
    FALSE,
    IF,
    ELSE,
    RETURN,
}

impl View for TokenKind {
    type V = Kind;

    open spec fn view(&self) -> Kind {
        match self {
            TokenKind::ILLEGAL => Kind::Illegal,
            TokenKind::EOF => Kind::Eof,
            TokenKind::IDENT(text) => Kind::Ident(text@),
            TokenKind::INT(value) => Kind::Int(*value as int),
            TokenKind::ASSIGN => Kind::Assign,
            TokenKind::PLUS => Kind::Plus,
            TokenKind::MINUS => Kind::Minus,
            TokenKind::BANG => Kind::Bang,
            TokenKind::ASTERISK => Kind::Asterisk,
            TokenKind::SLASH => Kind::Slash,
            TokenKind::LT => Kind::LessThan,
            TokenKind::GT => Kind::GreaterThan,
            TokenKind::EQ => Kind::Equal,
            TokenKind::NEQ => Kind::NotEqual,
            TokenKind::COMMA => Kind::Comma,
            TokenKind::SEMICOLON => Kind::Semicolon,
            TokenKind::LPAREN => Kind::LParen,
            TokenKind::RPAREN => Kind::RParen,
            TokenKind::LBRACE => Kind::LBrace,
            TokenKind::RBRACE => Kind::RBrace,
            TokenKind::FUNCTION => Kind::Function,
            TokenKind::LET => Kind::Let,
            TokenKind::TRUE => Kind::True,
            TokenKind::FALSE => Kind::False,
            TokenKind::IF => Kind::If,
            TokenKind::ELSE => Kind::Else,
            TokenKind::RETURN => Kind::Return,
        }
    }
}

impl Clone for TokenKind {
    fn clone(&self) -> (copy: Self)
        ensures
            copy == *self,
    {
        match self {
            TokenKind::ILLEGAL => TokenKind::ILLEGAL,
            TokenKind::EOF => TokenKind::EOF,
            TokenKind::IDENT(text) => TokenKind::IDENT(text.clone()),
            TokenKind::INT(value) => TokenKind::INT(*value),
            TokenKind::ASSIGN => TokenKind::ASSIGN,
            TokenKind::PLUS => TokenKind::PLUS,
            TokenKind::MINUS => TokenKind::MINUS,
            TokenKind::BANG => TokenKind::BANG,
            TokenKind::ASTERISK => TokenKind::ASTERISK,
            TokenKind::SLASH => TokenKind::SLASH,
            TokenKind::LT => TokenKind::LT,
            TokenKind::GT => TokenKind::GT,
            TokenKind::EQ => TokenKind::EQ,
            TokenKind::NEQ => TokenKind::NEQ,
            TokenKind::COMMA => TokenKind::COMMA,
            TokenKind::SEMICOLON => TokenKind::SEMICOLON,
            TokenKind::LPAREN => TokenKind::LPAREN,
            TokenKind::RPAREN => TokenKind::RPAREN,
            TokenKind::LBRACE => TokenKind::LBRACE,
            TokenKind::RBRACE => TokenKind::RBRACE,
            TokenKind::FUNCTION => TokenKind::FUNCTION,
            TokenKind::LET => TokenKind::LET,
            TokenKind::TRUE => TokenKind::TRUE,
            TokenKind::FALSE => TokenKind::FALSE,
            TokenKind::IF => TokenKind::IF,
            TokenKind::ELSE => TokenKind::ELSE,
            TokenKind::RETURN => TokenKind::RETURN,
        }
    }
}

impl PartialEq for TokenKind {
    /// Two kinds are equal when they have the same tag and carry the same
    /// text or value.
    fn eq(&self, other: &Self) -> (same: bool) {
        match (self, other) {
            (TokenKind::IDENT(a), TokenKind::IDENT(b)) => *a == *b,
            (TokenKind::INT(a), TokenKind::INT(b)) => *a == *b,
            (TokenKind::ILLEGAL, TokenKind::ILLEGAL) => true,
            (TokenKind::EOF, TokenKind::EOF) => true,
            (TokenKind::ASSIGN, TokenKind::ASSIGN) => true,
            (TokenKind::PLUS, TokenKind::PLUS) => true,
            (TokenKind::MINUS, TokenKind::MINUS) => true,
            (TokenKind::BANG, TokenKind::BANG) => true,
            (TokenKind::ASTERISK, TokenKind::ASTERISK) => true,
            (TokenKind::SLASH, TokenKind::SLASH) => true,
            (TokenKind::LT, TokenKind::LT) => true,
            (TokenKind::GT, TokenKind::GT) => true,
            (TokenKind::EQ, TokenKind::EQ) => true,
            (TokenKind::NEQ, TokenKind::NEQ) => true,
            (TokenKind::COMMA, TokenKind::COMMA) => true,
            (TokenKind::SEMICOLON, TokenKind::SEMICOLON) => true,
            (TokenKind::LPAREN, TokenKind::LPAREN) => true,
            (TokenKind::RPAREN, TokenKind::RPAREN) => true,
            (TokenKind::LBRACE, TokenKind::LBRACE) => true,
            (TokenKind::RBRACE, TokenKind::RBRACE) => true,
            (TokenKind::FUNCTION, TokenKind::FUNCTION) => true,
            (TokenKind::LET, TokenKind::LET) => true,
            (TokenKind::TRUE, TokenKind::TRUE) => true,
            (TokenKind::FALSE, TokenKind::FALSE) => true,
            (TokenKind::IF, TokenKind::IF) => true,
            (TokenKind::ELSE, TokenKind::ELSE) => true,
            (TokenKind::RETURN, TokenKind::RETURN) => true,
            _ => false,
        }
    }
}

impl PartialEqSpecImpl for TokenKind {
    open spec fn obeys_eq_spec() -> bool {
        true
    }

    open spec fn eq_spec(&self, other: &Self) -> bool {
        self@ == other@
    }
}

impl TokenKind {
    /// The name under which the kind appears in diagnostics.
    pub fn to_string(&self) -> (name: String)
        ensures
            name@ == self@.name(),
    {
        match self {
            TokenKind::ILLEGAL => String::from_str("ILLEGAL"),
            TokenKind::EOF => String::from_str("EOF"),
            // Identifiers + literals
            TokenKind::IDENT(text) => {
                let mut name = String::from_str("IDENT = ");
                name.append(text.as_str());
                name
            },
            TokenKind::INT(value) => {
                let mut name = String::from_str("INT = ");
                name.append(int_to_string(*value).as_str());
                name
            },
            // Operators
            TokenKind::ASSIGN => String::from_str("ASSIGN"),
            TokenKind::PLUS => String::from_str("PLUS"),
            TokenKind::MINUS => String::from_str("MINUS"),
            TokenKind::BANG => String::from_str("BANG"),
            TokenKind::ASTERISK => String::from_str("ASTERISK"),
            TokenKind::SLASH => String::from_str("SLASH"),
            TokenKind::LT => String::from_str("LT"),
            TokenKind::GT => String::from_str("GT"),
            TokenKind::EQ => String::from_str("EQ"),
            TokenKind::NEQ => String::from_str("NEQ"),
            // Delimiters
            TokenKind::COMMA => String::from_str("COMMA"),
            TokenKind::SEMICOLON => String::from_str("SEMICOLON"),
            TokenKind::LPAREN => String::from_str("LPAREN"),
            TokenKind::RPAREN => String::from_str("RPAREN"),
            TokenKind::LBRACE => String::from_str("LBRACE"),
            TokenKind::RBRACE => String::from_str("RBRACE"),
            // Keywords
            TokenKind::FUNCTION => String::from_str("FUNCTION"),
            TokenKind::LET => String::from_str("LET"),
            TokenKind::TRUE => String::from_str("TRUE"),
            TokenKind::FALSE => String::from_str("FALSE"),
            TokenKind::IF => String::from_str("IF"),
            TokenKind::ELSE => String::from_str("ELSE"),
            TokenKind::RETURN => String::from_str("RETURN"),
        }
    }
}

/// The keyword that `text[from..to]` spells, if it spells one.
pub fn keyword_at(text: &Vec<char>, from: usize, to: usize) -> (found: Option<TokenKind>)
    requires
        from <= to <= text.len(),
    ensures
        match keyword(text@.subrange(from as int, to as int)) {
            Some(kind) => found matches Some(k) && k@ == kind,
            None => found is None,
        },
{
    if spells(text, from, to, "let") {
        Some(TokenKind::LET)
    } else if spells(text, from, to, "fn") {
        Some(TokenKind::FUNCTION)
    } else if spells(text, from, to, "true") {
        Some(TokenKind::TRUE)
    } else if spells(text, from, to, "false") {
        Some(TokenKind::FALSE)
    } else if spells(text, from, to, "if") {
        Some(TokenKind::IF)
    } else if spells(text, from, to, "else") {
        Some(TokenKind::ELSE)
    } else if spells(text, from, to, "return") {
        Some(TokenKind::RETURN)
    } else {
        None
    }
}

/// The kind of the word `ident`: its keyword kind when it spells a keyword,
/// an identifier with that text otherwise.
pub fn lookup_ident(ident: &str) -> (kind: TokenKind)
    ensures
        kind@ == word_kind(ident@),
{
    let text = chars_of(ident);
    assert(text@.subrange(0, text@.len() as int) == ident@);
    match keyword_at(&text, 0, text.len()) {
        Some(kind) => kind,
        None => TokenKind::IDENT(ident.to_owned()),
    }
}

/// A place in a named source.
pub struct Position {
    /// The line, counted from 1.
    pub line: nat,
    /// The column within the line, counted from 1.
    pub column: nat,
    /// The name of the source.
    pub source: Seq<char>,
}

impl Position {
    /// Lines and columns are positive.
    pub open spec fn wf(self) -> bool {
        self.line >= 1 && self.column >= 1
    }
}

/// Where a token starts: line, column and the name of the source.
#[derive(Debug)]
pub struct Location {
    row: usize,
    col: usize,
    file: String,
}

impl View for Location {
    type V = Position;

    closed spec fn view(&self) -> Position {
        Position { line: self.row as nat, column: self.col as nat, source: self.file@ }
    }
}

impl Clone for Location {
    fn clone(&self) -> (copy: Self)
        ensures
            copy == *self,
    {
        Location { row: self.row, col: self.col, file: self.file.clone() }
    }
}

impl Location {
    /// The place at line `row`, column `col` of the source named `file`.
    pub fn new(row: usize, col: usize, file: &str) -> (location: Location)
        ensures
            location@ == (Position { line: row as nat, column: col as nat, source: file@ }),
    {
        Location { row, col, file: file.to_owned() }
    }

    /// Line, column and source name.
    pub fn get(&self) -> (parts: (usize, usize, &str))
        ensures
            parts.0 == self@.line,
            parts.1 == self@.column,
            parts.2@ == self@.source,
    {
        (self.row, self.col, self.file.as_str())
    }
}

/// A token as a mathematical value.
pub struct TokenView {
    /// What the token is.
    pub kind: Kind,
    /// How the token is written.
    pub literal: Seq<char>,
    /// Where the token starts, when positions are tracked.
    pub location: Option<Position>,
}

impl TokenView {
    /// The literal of a fixed kind or of an identifier is its canonical
    /// spelling; the literal of an integer is a way of writing its value.
    /// A location, if there is one, has a positive line and column.
    pub open spec fn wf(self) -> bool {
        &&& match self.kind {
            Kind::Int(value) => denotes(self.literal, value),
            kind => self.literal == kind.spelling(),
        }
        &&& match self.location {
            Some(position) => position.wf(),
            None => true,
        }
    }
}

/// A lexical unit: its kind, the way it is written, and where it starts.
#[derive(Debug)]
pub struct Token {
    pub ttype: TokenKind,
    pub literal: String,
    pub local: Option<Location>,
}

impl View for Token {
    type V = TokenView;

    open spec fn view(&self) -> TokenView {
        TokenView {
            kind: self.ttype@,
            literal: self.literal@,
            location: match self.local {
                Some(location) => Some(location@),
                None => None,
            },
        }
    }
}

impl Clone for Token {
    fn clone(&self) -> (copy: Self)
        ensures
            copy == *self,
    {
        let local = match &self.local {
            Some(location) => Some(location.clone()),
            None => None,
        };
        Token { ttype: self.ttype.clone(), literal: self.literal.clone(), local }
    }
}

impl Default for Token {
    /// The sentinel token: end of input, written as nothing, at no place.
    fn default() -> (token: Token)
        ensures
            token@ == (TokenView { kind: Kind::Eof, literal: Seq::<char>::empty(), location: None }),
    {
        Token { ttype: TokenKind::EOF, literal: String::new(), local: None }
    }
}

impl Token {
    /// See [`TokenView::wf`].
    pub open spec fn wf(&self) -> bool {
        self@.wf()
    }

    /// The token of kind `token_type` at `local`, written in its canonical
    /// spelling.
    pub fn new(token_type: TokenKind, local: Option<Location>) -> (token: Token)
        ensures
            token.ttype == token_type,
            token.literal@ == token_type@.spelling(),
            token.local == local,
            (local matches Some(location) ==> location@.wf()) ==> token.wf(),
    {
        let literal = match &token_type {
            TokenKind::EOF => String::from_str(""),
            TokenKind::ILLEGAL => String::from_str("ILLEGAL"),
            TokenKind::IDENT(s) => s.clone(),
            TokenKind::INT(i) => int_to_string(*i),
            TokenKind::ASSIGN => String::from_str("="),
            TokenKind::PLUS => String::from_str("+"),
            TokenKind::MINUS => String::from_str("-"),
            TokenKind::BANG => String::from_str("!"),
            TokenKind::ASTERISK => String::from_str("*"),
            TokenKind::SLASH => String::from_str("/"),
            TokenKind::LT => String::from_str("<"),
            TokenKind::GT => String::from_str(">"),
            TokenKind::EQ => String::from_str("=="),
            TokenKind::NEQ => String::from_str("!="),
            TokenKind::COMMA => String::from_str(","),
            TokenKind::SEMICOLON => String::from_str(";"),
            TokenKind::LPAREN => String::from_str("("),
            TokenKind::RPAREN => String::from_str(")"),
            TokenKind::LBRACE => String::from_str("{"),
            TokenKind::RBRACE => String::from_str("}"),
            TokenKind::FUNCTION => String::from_str("FUNCTION"),
            TokenKind::LET => String::from_str("LET"),
            TokenKind::TRUE => String::from_str("TRUE"),
            TokenKind::FALSE => String::from_str("FALSE"),
            TokenKind::IF => String::from_str("IF"),
            TokenKind::ELSE => String::from_str("ELSE"),
            TokenKind::RETURN => String::from_str("RETURN"),
        };
        Token { ttype: token_type, literal, local }
    }

    /// Where the token starts, when positions are tracked.
    pub fn local(&self) -> (location: Option<&Location>)
        ensures
            match location {
                Some(l) => self.local == Some(*l),
                None => self.local is None,
            },
    {
        match &self.local {
            Some(i) => Some(i),
            None => None,
        }
    }
}

} // verus!
