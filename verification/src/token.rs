use vstd::prelude::*;

verus! {

/// The lexical class of a token.
#[derive(Debug, Clone, PartialEq, Eq, Hash, Structural)]
pub enum TokenType {
    Identifier,
    Keyword,
    Number,
    String,
    FormatString,
    Operator,
    EndOfLine,
    EndOfFile,
    Unknown,
}

/// The lower-case name under which a token class is displayed.
pub open spec fn token_type_name(t: TokenType) -> Seq<char> {
    match t {
        TokenType::Identifier => "identifier"@,
        TokenType::Keyword => "keyword"@,
        TokenType::Number => "number"@,
        TokenType::String => "string"@,
        TokenType::FormatString => "format_string"@,
        TokenType::Operator => "operator"@,
        TokenType::EndOfLine => "end_of_line"@,
        TokenType::EndOfFile => "end_of_file"@,
        TokenType::Unknown => "unknown"@,
    }
}

/// The display name of a token class (what `{}` prints for it).
pub fn token_type_to_str(t: &TokenType) -> (s: &'static str)
    ensures
        s@ == token_type_name(*t),
{
    match t {
        TokenType::Identifier => "identifier",
        TokenType::Keyword => "keyword",
        TokenType::Number => "number",
        TokenType::String => "string",
        TokenType::FormatString => "format_string",
        TokenType::Operator => "operator",
        TokenType::EndOfLine => "end_of_line",
        TokenType::EndOfFile => "end_of_file",
        TokenType::Unknown => "unknown",
    }
}

impl TokenType {
    /// The display name of this token class as an owned string.
    pub fn to_string(&self) -> (s: String)
        ensures
            s@ == token_type_name(*self),
    {
        token_type_to_str(self).to_string()
    }
}

/// A token: its class, its text, and the position it was found at.
#[derive(Debug, Clone, PartialEq, Eq)]
pub struct Token {
    pub token_type: TokenType,
    pub value: String,
    pub line: i32,
    pub col: i32,
}

impl Token {
    /// A token with no position (line and column are both 0).
    pub fn new(token_type: TokenType, value: String) -> (t: Token)
        ensures
            t.token_type == token_type,
            t.value@ == value@,
            t.line == 0,
            t.col == 0,
    {
        Token { token_type, value, line: 0, col: 0 }
    }

    /// A token found at the given line and column.
    pub fn with_pos(token_type: TokenType, value: String, line: i32, col: i32) -> (t: Token)
        ensures
            t.token_type == token_type,
            t.value@ == value@,
            t.line == line,
            t.col == col,
    {
        Token { token_type, value, line, col }
    }
}

} // verus!
