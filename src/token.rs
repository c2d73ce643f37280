use vstd::prelude::*;

use crate::grammar::{digits_end, is_alpha, is_digit};
use crate::text::spells;

verus! {

#[derive(Debug, Clone, PartialEq)]
pub struct Token {
    pub token_type: TokenType,
    pub lexeme: String,
    pub line_number: usize,
}

impl Token {
    pub fn new(token_type: TokenType, lexeme: String, line_number: usize) -> (r: Self)
        ensures
            r.token_type == token_type,
            r.lexeme == lexeme,
            r.line_number == line_number,
    {
        Self { token_type, lexeme, line_number }
    }

    /// Whether this token is the one the grammar describes: same characters,
    /// same line, and the type that those characters classify as.
    pub open spec fn is_token_of(&self, l: crate::grammar::Lexed) -> bool {
        &&& self.lexeme@ == l.lexeme
        &&& self.line_number == l.line
        &&& self.token_type.is_type_of(l.lexeme)
    }

    /// Equality of tokens by the contents of their strings.
    pub open spec fn same_as(&self, other: &Token) -> bool {
        &&& self.lexeme@ == other.lexeme@
        &&& self.line_number == other.line_number
        &&& self.token_type.same_as(&other.token_type)
    }
}

/// The value of a number literal, exactly as written: the digits before the
/// decimal point and those after it (none where the literal has no point).
#[derive(Debug, Clone, PartialEq)]
pub struct Decimal {
    pub integer_digits: String,
    pub fraction_digits: String,
}

impl Decimal {
    /// Whether this is the value of the number literal spelled `lexeme`.
    pub open spec fn is_spelled_by(&self, lexeme: Seq<char>) -> bool {
        let d = digits_end(lexeme, 0);
        &&& self.integer_digits@ == lexeme.subrange(0, d)
        &&& self.fraction_digits@ == if d < lexeme.len() {
            lexeme.subrange(d + 1, lexeme.len() as int)
        } else {
            Seq::empty()
        }
    }
}

#[derive(Debug, Clone, PartialEq)]
pub enum TokenType {
    // Single character tokens
    LeftParentheses,
    RightParentheses,
    LeftBrace,
    RightBrace,
    Comma,
    Dot,
    Minus,
    Plus,
    SemiColon,
    Slash,
    Star,
    // One or two character tokens
    Bang,
    BangEqual,
    Equal,
    EqualEqual,
    Greater,
    GreaterEqual,
    Less,
    LessEqual,
    // Literals
    Identifier { name: String },
    String { value: String },
    Number { value: Decimal },
    // Keywords
    And,
    Class,
    Else,
    False,
    Fun,
    For,
    If,
    Null,
    Or,
    Print,
    Return,
    Super,
    This,
    True,
    Var,
    While,
    // Other
    Eof,
}

/// The token type that converting the character `c` gives, where it gives one:
/// the punctuation marks and the first characters of the operators.
pub open spec fn char_type(c: char) -> Option<TokenType> {
    if c == '(' {
        Some(TokenType::LeftParentheses)
    } else if c == ')' {
        Some(TokenType::RightParentheses)
    } else if c == '{' {
        Some(TokenType::LeftBrace)
    } else if c == '}' {
        Some(TokenType::RightBrace)
    } else if c == ',' {
        Some(TokenType::Comma)
    } else if c == '.' {
        Some(TokenType::Dot)
    } else if c == '-' {
        Some(TokenType::Minus)
    } else if c == '+' {
        Some(TokenType::Plus)
    } else if c == ';' {
        Some(TokenType::SemiColon)
    } else if c == '*' {
        Some(TokenType::Star)
    } else if c == '!' {
        Some(TokenType::Bang)
    } else if c == '=' {
        Some(TokenType::Equal)
    } else if c == '<' {
        Some(TokenType::Less)
    } else if c == '>' {
        Some(TokenType::Greater)
    } else {
        None
    }
}

/// The token type of a lexeme made of the single character `c`, where it has
/// one: a converted character, or the division slash.
pub open spec fn single_char_type(c: char) -> Option<TokenType> {
    if c == '/' {
        Some(TokenType::Slash)
    } else {
        char_type(c)
    }
}

/// The token type of the lexeme `c` followed by `=`, where it has one.
pub open spec fn with_equal_type(c: char) -> Option<TokenType> {
    if c == '!' {
        Some(TokenType::BangEqual)
    } else if c == '=' {
        Some(TokenType::EqualEqual)
    } else if c == '<' {
        Some(TokenType::LessEqual)
    } else if c == '>' {
        Some(TokenType::GreaterEqual)
    } else {
        None
    }
}

/// The keyword spelled `s`, where it is one.
pub open spec fn keyword_of(s: Seq<char>) -> Option<TokenType> {
    if s == "and"@ {
        Some(TokenType::And)
    } else if s == "class"@ {
        Some(TokenType::Class)
    } else if s == "else"@ {
        Some(TokenType::Else)
    } else if s == "false"@ {
        Some(TokenType::False)
    } else if s == "for"@ {
        Some(TokenType::For)
    } else if s == "fun"@ {
        Some(TokenType::Fun)
    } else if s == "if"@ {
        Some(TokenType::If)
    } else if s == "null"@ {
        Some(TokenType::Null)
    } else if s == "or"@ {
        Some(TokenType::Or)
    } else if s == "print"@ {
        Some(TokenType::Print)
    } else if s == "return"@ {
        Some(TokenType::Return)
    } else if s == "super"@ {
        Some(TokenType::Super)
    } else if s == "this"@ {
        Some(TokenType::This)
    } else if s == "true"@ {
        Some(TokenType::True)
    } else if s == "var"@ {
        Some(TokenType::Var)
    } else if s == "while"@ {
        Some(TokenType::While)
    } else {
        None
    }
}

/// The type of a lexeme that carries no value: punctuation, operators,
/// keywords, and the empty lexeme of the end of input.
pub open spec fn fixed_type_of(lexeme: Seq<char>) -> Option<TokenType> {
    if lexeme.len() == 0 {
        Some(TokenType::Eof)
    } else if is_alpha(lexeme[0]) {
        keyword_of(lexeme)
    } else if lexeme.len() == 1 {
        single_char_type(lexeme[0])
    } else if lexeme.len() == 2 && lexeme[1] == '=' {
        with_equal_type(lexeme[0])
    } else {
        None
    }
}

impl TokenType {
    /// Whether this is the type of a token with the characters `lexeme`.
    /// A word that spells a keyword is that keyword and never an identifier.
    pub open spec fn is_type_of(&self, lexeme: Seq<char>) -> bool {
        match self {
            TokenType::Identifier { name } => {
                &&& lexeme.len() > 0
                &&& is_alpha(lexeme[0])
                &&& keyword_of(lexeme) is None
                &&& name@ == lexeme
            },
            TokenType::String { value } => {
                &&& lexeme.len() >= 2
                &&& lexeme[0] == '"'
                &&& lexeme.last() == '"'
                &&& value@ == lexeme.subrange(1, lexeme.len() - 1)
            },
            TokenType::Number { value } => {
                &&& lexeme.len() > 0
                &&& is_digit(lexeme[0])
                &&& value.is_spelled_by(lexeme)
            },
            _ => fixed_type_of(lexeme) == Some(*self),
        }
    }

    /// Equality of token types by the contents of the strings they carry.
    pub open spec fn same_as(&self, other: &TokenType) -> bool {
        match (self, other) {
            (TokenType::Identifier { name: a }, TokenType::Identifier { name: b }) => a@ == b@,
            (TokenType::String { value: a }, TokenType::String { value: b }) => a@ == b@,
            (TokenType::Number { value: a }, TokenType::Number { value: b }) => {
                &&& a.integer_digits@ == b.integer_digits@
                &&& a.fraction_digits@ == b.fraction_digits@
            },
            _ => self == other,
        }
    }

    /// The keyword spelled `s`, or `s` back where it spells none.
    pub fn try_keyword_from_str(s: &str) -> (r: Result<Self, &str>)
        ensures
            match keyword_of(s@) {
                Some(t) => r == Ok::<TokenType, &str>(t),
                None => r == Err::<TokenType, &str>(s),
            },
    {
        if spells(s, "and") {
            Ok(TokenType::And)
        } else if spells(s, "class") {
            Ok(TokenType::Class)
        } else if spells(s, "else") {
            Ok(TokenType::Else)
        } else if spells(s, "false") {
            Ok(TokenType::False)
        } else if spells(s, "for") {
            Ok(TokenType::For)
        } else if spells(s, "fun") {
            Ok(TokenType::Fun)
        } else if spells(s, "if") {
            Ok(TokenType::If)
        } else if spells(s, "null") {
            Ok(TokenType::Null)
        } else if spells(s, "or") {
            Ok(TokenType::Or)
        } else if spells(s, "print") {
            Ok(TokenType::Print)
        } else if spells(s, "return") {
            Ok(TokenType::Return)
        } else if spells(s, "super") {
            Ok(TokenType::Super)
        } else if spells(s, "this") {
            Ok(TokenType::This)
        } else if spells(s, "true") {
            Ok(TokenType::True)
        } else if spells(s, "var") {
            Ok(TokenType::Var)
        } else if spells(s, "while") {
            Ok(TokenType::While)
        } else {
            Err(s)
        }
    }

    /// The token type that the character `c` converts to, where it converts to one.
    pub fn try_from_char(c: char) -> (r: Option<Self>)
        ensures
            r == char_type(c),
    {
        match c {
            '(' => Some(TokenType::LeftParentheses),
            ')' => Some(TokenType::RightParentheses),
            '{' => Some(TokenType::LeftBrace),
            '}' => Some(TokenType::RightBrace),
            ',' => Some(TokenType::Comma),
            '.' => Some(TokenType::Dot),
            '-' => Some(TokenType::Minus),
            '+' => Some(TokenType::Plus),
            ';' => Some(TokenType::SemiColon),
            '*' => Some(TokenType::Star),
            '!' => Some(TokenType::Bang),
            '=' => Some(TokenType::Equal),
            '<' => Some(TokenType::Less),
            '>' => Some(TokenType::Greater),
            _ => None,
        }
    }
}

impl TryFrom<char> for TokenType {
    type Error = ();

    fn try_from(value: char) -> Result<Self, Self::Error> {
        match TokenType::try_from_char(value) {
            Some(token_type) => Ok(token_type),
            None => Err(()),
        }
    }
}

impl vstd::std_specs::convert::TryFromSpecImpl<char> for TokenType {
    open spec fn obeys_try_from_spec() -> bool {
        true
    }

    open spec fn try_from_spec(v: char) -> Result<Self, ()> {
        match char_type(v) {
            Some(token_type) => Ok(token_type),
            None => Err(()),
        }
    }
}

/// A lexeme has at most one type: two types of the same lexeme carry the same strings.
pub proof fn lemma_type_of_unique(a: TokenType, b: TokenType, lexeme: Seq<char>)
    requires
        a.is_type_of(lexeme),
        b.is_type_of(lexeme),
    ensures
        a.same_as(&b),
{
}

} // verus!
