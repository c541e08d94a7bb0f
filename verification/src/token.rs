use vstd::prelude::*;

verus! {

/// A lexical token. A number keeps the text it was written with.
#[derive(Debug)]
pub enum Token {
    Print,
    Function,
    Let,
    In,
    If,
    Else,
    Elif,
    While,
    For,
    True,
    False,
    LParen,
    RParen,
    LBrace,
    RBrace,
    Plus,
    Minus,
    Mult,
    Div,
    Power,
    Dot,
    Comma,
    Colon,
    Semicolon,
    Concat,
    ConcatSpace,
    Percent,
    Eq,
    Assign,
    Arrow,
    EqEq,
    Neq,
    Lt,
    Gt,
    Leq,
    Geq,
    And,
    Or,
    Not,
    Protocol,
    Extends,
    RArrow,
    Pi,
    E,
    Is,
    As,
    T,
    Sin,
    Cos,
    Tan,
    Sqrt,
    Log,
    Exp,
    Rand,
    Type,
    Inherits,
    New,
    NumberType,
    StringType,
    BooleanType,
    ObjectType,
    Range,
    Error,
    Identifier(String),
    Number(String),
    Str(String),
}

/// Model of a token: payloads are character sequences.
pub enum TokenView {
    Print,
    Function,
    Let,
    In,
    If,
    Else,
    Elif,
    While,
    For,
    True,
    False,
    LParen,
    RParen,
    LBrace,
    RBrace,
    Plus,
    Minus,
    Mult,
    Div,
    Power,
    Dot,
    Comma,
    Colon,
    Semicolon,
    Concat,
    ConcatSpace,
    Percent,
    Eq,
    Assign,
    Arrow,
    EqEq,
    Neq,
    Lt,
    Gt,
    Leq,
    Geq,
    And,
    Or,
    Not,
    Protocol,
    Extends,
    RArrow,
    Pi,
    E,
    Is,
    As,
    T,
    Sin,
    Cos,
    Tan,
    Sqrt,
    Log,
    Exp,
    Rand,
    Type,
    Inherits,
    New,
    NumberType,
    StringType,
    BooleanType,
    ObjectType,
    Range,
    Error,
    Identifier(Seq<char>),
    Number(Seq<char>),
    Str(Seq<char>),
}

impl View for Token {
    type V = TokenView;

    open spec fn view(&self) -> TokenView {
        match self {
            Token::Print => TokenView::Print,
            Token::Function => TokenView::Function,
            Token::Let => TokenView::Let,
            Token::In => TokenView::In,
            Token::If => TokenView::If,
            Token::Else => TokenView::Else,
            Token::Elif => TokenView::Elif,
            Token::While => TokenView::While,
            Token::For => TokenView::For,
            Token::True => TokenView::True,
            Token::False => TokenView::False,
            Token::LParen => TokenView::LParen,
            Token::RParen => TokenView::RParen,
            Token::LBrace => TokenView::LBrace,
            Token::RBrace => TokenView::RBrace,
            Token::Plus => TokenView::Plus,
            Token::Minus => TokenView::Minus,
            Token::Mult => TokenView::Mult,
            Token::Div => TokenView::Div,
            Token::Power => TokenView::Power,
            Token::Dot => TokenView::Dot,
            Token::Comma => TokenView::Comma,
            Token::Colon => TokenView::Colon,
            Token::Semicolon => TokenView::Semicolon,
            Token::Concat => TokenView::Concat,
            Token::ConcatSpace => TokenView::ConcatSpace,
            Token::Percent => TokenView::Percent,
            Token::Eq => TokenView::Eq,
            Token::Assign => TokenView::Assign,
            Token::Arrow => TokenView::Arrow,
            Token::EqEq => TokenView::EqEq,
            Token::Neq => TokenView::Neq,
            Token::Lt => TokenView::Lt,
            Token::Gt => TokenView::Gt,
            Token::Leq => TokenView::Leq,
            Token::Geq => TokenView::Geq,
            Token::And => TokenView::And,
            Token::Or => TokenView::Or,
            Token::Not => TokenView::Not,
            Token::Protocol => TokenView::Protocol,
            Token::Extends => TokenView::Extends,
            Token::RArrow => TokenView::RArrow,
            Token::Pi => TokenView::Pi,
            Token::E => TokenView::E,
            Token::Is => TokenView::Is,
            Token::As => TokenView::As,
            Token::T => TokenView::T,
            Token::Sin => TokenView::Sin,
            Token::Cos => TokenView::Cos,
            Token::Tan => TokenView::Tan,
            Token::Sqrt => TokenView::Sqrt,
            Token::Log => TokenView::Log,
            Token::Exp => TokenView::Exp,
            Token::Rand => TokenView::Rand,
            Token::Type => TokenView::Type,
            Token::Inherits => TokenView::Inherits,
            Token::New => TokenView::New,
            Token::NumberType => TokenView::NumberType,
            Token::StringType => TokenView::StringType,
            Token::BooleanType => TokenView::BooleanType,
            Token::ObjectType => TokenView::ObjectType,
            Token::Range => TokenView::Range,
            Token::Error => TokenView::Error,
            Token::Identifier(s) => TokenView::Identifier(s@),
            Token::Number(s) => TokenView::Number(s@),
            Token::Str(s) => TokenView::Str(s@),
        }
    }
}

impl Clone for Token {
    fn clone(&self) -> (res: Self)
        ensures
            res@ == self@,
    {
        match self {
            Token::Print => Token::Print,
            Token::Function => Token::Function,
            Token::Let => Token::Let,
            Token::In => Token::In,
            Token::If => Token::If,
            Token::Else => Token::Else,
            Token::Elif => Token::Elif,
            Token::While => Token::While,
            Token::For => Token::For,
            Token::True => Token::True,
            Token::False => Token::False,
            Token::LParen => Token::LParen,
            Token::RParen => Token::RParen,
            Token::LBrace => Token::LBrace,
            Token::RBrace => Token::RBrace,
            Token::Plus => Token::Plus,
            Token::Minus => Token::Minus,
            Token::Mult => Token::Mult,
            Token::Div => Token::Div,
            Token::Power => Token::Power,
            Token::Dot => Token::Dot,
            Token::Comma => Token::Comma,
            Token::Colon => Token::Colon,
            Token::Semicolon => Token::Semicolon,
            Token::Concat => Token::Concat,
            Token::ConcatSpace => Token::ConcatSpace,
            Token::Percent => Token::Percent,
            Token::Eq => Token::Eq,
            Token::Assign => Token::Assign,
            Token::Arrow => Token::Arrow,
            Token::EqEq => Token::EqEq,
            Token::Neq => Token::Neq,
            Token::Lt => Token::Lt,
            Token::Gt => Token::Gt,
            Token::Leq => Token::Leq,
            Token::Geq => Token::Geq,
            Token::And => Token::And,
            Token::Or => Token::Or,
            Token::Not => Token::Not,
            Token::Protocol => Token::Protocol,
            Token::Extends => Token::Extends,
            Token::RArrow => Token::RArrow,
            Token::Pi => Token::Pi,
            Token::E => Token::E,
            Token::Is => Token::Is,
            Token::As => Token::As,
            Token::T => Token::T,
            Token::Sin => Token::Sin,
            Token::Cos => Token::Cos,
            Token::Tan => Token::Tan,
            Token::Sqrt => Token::Sqrt,
            Token::Log => Token::Log,
            Token::Exp => Token::Exp,
            Token::Rand => Token::Rand,
            Token::Type => Token::Type,
            Token::Inherits => Token::Inherits,
            Token::New => Token::New,
            Token::NumberType => Token::NumberType,
            Token::StringType => Token::StringType,
            Token::BooleanType => Token::BooleanType,
            Token::ObjectType => Token::ObjectType,
            Token::Range => Token::Range,
            Token::Error => Token::Error,
            Token::Identifier(s) => Token::Identifier(s.clone()),
            Token::Number(s) => Token::Number(s.clone()),
            Token::Str(s) => Token::Str(s.clone()),
        }
    }
}

/// The text a token is shown with: its spelling, the identifier itself, the number as
/// written, or the string between double quotes.
pub open spec fn token_text(t: TokenView) -> Seq<char> {
    match t {
        TokenView::Print => "print"@,
        TokenView::Function => "function"@,
        TokenView::Let => "let"@,
        TokenView::In => "in"@,
        TokenView::If => "if"@,
        TokenView::Else => "else"@,
        TokenView::Elif => "elif"@,
        TokenView::While => "while"@,
        TokenView::For => "for"@,
        TokenView::True => "true"@,
        TokenView::False => "false"@,
        TokenView::LParen => "("@,
        TokenView::RParen => ")"@,
        TokenView::LBrace => "{"@,
        TokenView::RBrace => "}"@,
        TokenView::Plus => "+"@,
        TokenView::Minus => "-"@,
        TokenView::Mult => "*"@,
        TokenView::Div => "/"@,
        TokenView::Power => "^"@,
        TokenView::Dot => "."@,
        TokenView::Comma => ","@,
        TokenView::Colon => ":"@,
        TokenView::Semicolon => ";"@,
        TokenView::Concat => "@"@,
        TokenView::ConcatSpace => "@@"@,
        TokenView::Percent => "%"@,
        TokenView::Eq => "="@,
        TokenView::Assign => ":="@,
        TokenView::Arrow => "=>"@,
        TokenView::EqEq => "=="@,
        TokenView::Neq => "!="@,
        TokenView::Lt => "<"@,
        TokenView::Gt => ">"@,
        TokenView::Leq => "<="@,
        TokenView::Geq => ">="@,
        TokenView::And => "&"@,
        TokenView::Or => "|"@,
        TokenView::Not => "!"@,
        TokenView::Protocol => "protocol"@,
        TokenView::Extends => "extends"@,
        TokenView::RArrow => "->"@,
        TokenView::Pi => "PI"@,
        TokenView::E => "E"@,
        TokenView::Is => "is"@,
        TokenView::As => "as"@,
        TokenView::T => "T"@,
        TokenView::Sin => "sin"@,
        TokenView::Cos => "cos"@,
        TokenView::Tan => "tan"@,
        TokenView::Sqrt => "sqrt"@,
        TokenView::Log => "log"@,
        TokenView::Exp => "exp"@,
        TokenView::Rand => "rand"@,
        TokenView::Type => "type"@,
        TokenView::Inherits => "inherits"@,
        TokenView::New => "new"@,
        TokenView::NumberType => "Number"@,
        TokenView::StringType => "String"@,
        TokenView::BooleanType => "Boolean"@,
        TokenView::ObjectType => "Object"@,
        TokenView::Range => "range"@,
        TokenView::Error => "error"@,
        TokenView::Identifier(s) => s,
        TokenView::Number(s) => s,
        TokenView::Str(s) => "\""@ + s + "\""@,
    }
}

impl Token {
    /// The text the token is shown with.
    pub fn text(&self) -> (res: String)
        ensures
            res@ == token_text(self@),
    {
        match self {
            Token::Print => String::from_str("print"),
            Token::Function => String::from_str("function"),
            Token::Let => String::from_str("let"),
            Token::In => String::from_str("in"),
            Token::If => String::from_str("if"),
            Token::Else => String::from_str("else"),
            Token::Elif => String::from_str("elif"),
            Token::While => String::from_str("while"),
            Token::For => String::from_str("for"),
            Token::True => String::from_str("true"),
            Token::False => String::from_str("false"),
            Token::LParen => String::from_str("("),
            Token::RParen => String::from_str(")"),
            Token::LBrace => String::from_str("{"),
            Token::RBrace => String::from_str("}"),
            Token::Plus => String::from_str("+"),
            Token::Minus => String::from_str("-"),
            Token::Mult => String::from_str("*"),
            Token::Div => String::from_str("/"),
            Token::Power => String::from_str("^"),
            Token::Dot => String::from_str("."),
            Token::Comma => String::from_str(","),
            Token::Colon => String::from_str(":"),
            Token::Semicolon => String::from_str(";"),
            Token::Concat => String::from_str("@"),
            Token::ConcatSpace => String::from_str("@@"),
            Token::Percent => String::from_str("%"),
            Token::Eq => String::from_str("="),
            Token::Assign => String::from_str(":="),
            Token::Arrow => String::from_str("=>"),
            Token::EqEq => String::from_str("=="),
            Token::Neq => String::from_str("!="),
            Token::Lt => String::from_str("<"),
            Token::Gt => String::from_str(">"),
            Token::Leq => String::from_str("<="),
            Token::Geq => String::from_str(">="),
            Token::And => String::from_str("&"),
            Token::Or => String::from_str("|"),
            Token::Not => String::from_str("!"),
            Token::Protocol => String::from_str("protocol"),
            Token::Extends => String::from_str("extends"),
            Token::RArrow => String::from_str("->"),
            Token::Pi => String::from_str("PI"),
            Token::E => String::from_str("E"),
            Token::Is => String::from_str("is"),
            Token::As => String::from_str("as"),
            Token::T => String::from_str("T"),
            Token::Sin => String::from_str("sin"),
            Token::Cos => String::from_str("cos"),
            Token::Tan => String::from_str("tan"),
            Token::Sqrt => String::from_str("sqrt"),
            Token::Log => String::from_str("log"),
            Token::Exp => String::from_str("exp"),
            Token::Rand => String::from_str("rand"),
            Token::Type => String::from_str("type"),
            Token::Inherits => String::from_str("inherits"),
            Token::New => String::from_str("new"),
            Token::NumberType => String::from_str("Number"),
            Token::StringType => String::from_str("String"),
            Token::BooleanType => String::from_str("Boolean"),
            Token::ObjectType => String::from_str("Object"),
            Token::Range => String::from_str("range"),
            Token::Error => String::from_str("error"),
            Token::Identifier(s) => s.clone(),
            Token::Number(s) => s.clone(),
            Token::Str(s) => {
                let mut r = String::from_str("\"");
                r.append(s.as_str());
                r.append("\"");
                r
            },
        }
    }
}

} // verus!
