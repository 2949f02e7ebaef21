//! The token alphabet of the Kururi language.
//!
//! A token is a tagged value from a fixed alphabet: keywords, type keywords,
//! payload-carrying tokens (identifier, string literal, number literal),
//! operators, punctuation, a newline separator and an end-of-input mark.
//!
//! A number literal carries its canonical decimal lexeme as text; the
//! numeric value is never needed by any stage, and carrying the lexeme keeps
//! every payload an exact sequence of characters.

use vstd::prelude::*;

use crate::text;

verus! {

/// A Kururi token.
#[derive(Debug, Clone, PartialEq)]
pub enum Token {
    // Keywords
    Const,
    Let,
    Function,
    Class,
    Public,
    If,
    Elseif,
    Else,
    While,
    For,
    Foreach,
    In,
    Return,
    New,
    True,
    False,
    // Type keywords
    StringType,
    NumberType,
    VoidType,
    // Identifiers and literals
    Identifier(String),
    StringLiteral(String),
    NumberLiteral(String),
    // Operators
    Plus,
    Minus,
    Multiply,
    Divide,
    Assign,
    Equal,
    NotEqual,
    LessThan,
    LessThanOrEqual,
    GreaterThan,
    GreaterThanOrEqual,
    And,
    Or,
    Not,
    // Punctuation
    LeftParen,
    RightParen,
    LeftBrace,
    RightBrace,
    LeftBracket,
    RightBracket,
    Comma,
    Colon,
    Dot,
    // Structural
    Newline,
    Eof,
}

/// The mathematical model of a token: the same alphabet with every text
/// payload abstracted to its character sequence.
pub enum TokenModel {
    Const,
    Let,
    Function,
    Class,
    Public,
    If,
    Elseif,
    Else,
    While,
    For,
    Foreach,
    In,
    Return,
    New,
    True,
    False,
    StringType,
    NumberType,
    VoidType,
    Identifier(Seq<char>),
    StringLiteral(Seq<char>),
    NumberLiteral(Seq<char>),
    Plus,
    Minus,
    Multiply,
    Divide,
    Assign,
    Equal,
    NotEqual,
    LessThan,
    LessThanOrEqual,
    GreaterThan,
    GreaterThanOrEqual,
    And,
    Or,
    Not,
    LeftParen,
    RightParen,
    LeftBrace,
    RightBrace,
    LeftBracket,
    RightBracket,
    Comma,
    Colon,
    Dot,
    Newline,
    Eof,
}

impl DeepView for Token {
    type V = TokenModel;

    open spec fn deep_view(&self) -> TokenModel {
        match self {
            Token::Const => TokenModel::Const,
            Token::Let => TokenModel::Let,
            Token::Function => TokenModel::Function,
            Token::Class => TokenModel::Class,
            Token::Public => TokenModel::Public,
            Token::If => TokenModel::If,
            Token::Elseif => TokenModel::Elseif,
            Token::Else => TokenModel::Else,
            Token::While => TokenModel::While,
            Token::For => TokenModel::For,
            Token::Foreach => TokenModel::Foreach,
            Token::In => TokenModel::In,
            Token::Return => TokenModel::Return,
            Token::New => TokenModel::New,
            Token::True => TokenModel::True,
            Token::False => TokenModel::False,
            Token::StringType => TokenModel::StringType,
            Token::NumberType => TokenModel::NumberType,
            Token::VoidType => TokenModel::VoidType,
            Token::Identifier(s) => TokenModel::Identifier(s@),
            Token::StringLiteral(s) => TokenModel::StringLiteral(s@),
            Token::NumberLiteral(s) => TokenModel::NumberLiteral(s@),
            Token::Plus => TokenModel::Plus,
            Token::Minus => TokenModel::Minus,
            Token::Multiply => TokenModel::Multiply,
            Token::Divide => TokenModel::Divide,
            Token::Assign => TokenModel::Assign,
            Token::Equal => TokenModel::Equal,
            Token::NotEqual => TokenModel::NotEqual,
            Token::LessThan => TokenModel::LessThan,
            Token::LessThanOrEqual => TokenModel::LessThanOrEqual,
            Token::GreaterThan => TokenModel::GreaterThan,
            Token::GreaterThanOrEqual => TokenModel::GreaterThanOrEqual,
            Token::And => TokenModel::And,
            Token::Or => TokenModel::Or,
            Token::Not => TokenModel::Not,
            Token::LeftParen => TokenModel::LeftParen,
            Token::RightParen => TokenModel::RightParen,
            Token::LeftBrace => TokenModel::LeftBrace,
            Token::RightBrace => TokenModel::RightBrace,
            Token::LeftBracket => TokenModel::LeftBracket,
            Token::RightBracket => TokenModel::RightBracket,
            Token::Comma => TokenModel::Comma,
            Token::Colon => TokenModel::Colon,
            Token::Dot => TokenModel::Dot,
            Token::Newline => TokenModel::Newline,
            Token::Eof => TokenModel::Eof,
        }
    }
}

impl View for Token {
    type V = TokenModel;

    open spec fn view(&self) -> TokenModel {
        self.deep_view()
    }
}

/// Holds when `w` is one of the reserved words of the language
/// (keywords and type keywords).
pub open spec fn is_reserved_word(w: Seq<char>) -> bool {
    ||| w == "const"@
    ||| w == "let"@
    ||| w == "function"@
    ||| w == "class"@
    ||| w == "public"@
    ||| w == "if"@
    ||| w == "elseif"@
    ||| w == "else"@
    ||| w == "while"@
    ||| w == "for"@
    ||| w == "foreach"@
    ||| w == "in"@
    ||| w == "return"@
    ||| w == "new"@
    ||| w == "true"@
    ||| w == "false"@
    ||| w == "string"@
    ||| w == "number"@
    ||| w == "void"@
}

/// Maps an identifier run to its token: the dedicated variant for each
/// reserved word, and an identifier carrying the run itself otherwise.
pub open spec fn spec_keyword_or_identifier(w: Seq<char>) -> TokenModel {
    if w == "const"@ {
        TokenModel::Const
    } else if w == "let"@ {
        TokenModel::Let
    } else if w == "function"@ {
        TokenModel::Function
    } else if w == "class"@ {
        TokenModel::Class
    } else if w == "public"@ {
        TokenModel::Public
    } else if w == "if"@ {
        TokenModel::If
    } else if w == "elseif"@ {
        TokenModel::Elseif
    } else if w == "else"@ {
        TokenModel::Else
    } else if w == "while"@ {
        TokenModel::While
    } else if w == "for"@ {
        TokenModel::For
    } else if w == "foreach"@ {
        TokenModel::Foreach
    } else if w == "in"@ {
        TokenModel::In
    } else if w == "return"@ {
        TokenModel::Return
    } else if w == "new"@ {
        TokenModel::New
    } else if w == "true"@ {
        TokenModel::True
    } else if w == "false"@ {
        TokenModel::False
    } else if w == "string"@ {
        TokenModel::StringType
    } else if w == "number"@ {
        TokenModel::NumberType
    } else if w == "void"@ {
        TokenModel::VoidType
    } else {
        TokenModel::Identifier(w)
    }
}

/// The display text of a token: the lexeme for fixed tokens, an escaped
/// newline for the separator, `EOF` for end of input, and empty text for the
/// payload-carrying tokens.
pub open spec fn spec_token_text(t: TokenModel) -> Seq<char> {
    match t {
        TokenModel::Const => "const"@,
        TokenModel::Let => "let"@,
        TokenModel::Function => "function"@,
        TokenModel::Class => "class"@,
        TokenModel::Public => "public"@,
        TokenModel::If => "if"@,
        TokenModel::Elseif => "elseif"@,
        TokenModel::Else => "else"@,
        TokenModel::While => "while"@,
        TokenModel::For => "for"@,
        TokenModel::Foreach => "foreach"@,
        TokenModel::In => "in"@,
        TokenModel::Return => "return"@,
        TokenModel::New => "new"@,
        TokenModel::True => "true"@,
        TokenModel::False => "false"@,
        TokenModel::StringType => "string"@,
        TokenModel::NumberType => "number"@,
        TokenModel::VoidType => "void"@,
        TokenModel::Plus => "+"@,
        TokenModel::Minus => "-"@,
        TokenModel::Multiply => "*"@,
        TokenModel::Divide => "/"@,
        TokenModel::Assign => "="@,
        TokenModel::Equal => "=="@,
        TokenModel::NotEqual => "!="@,
        TokenModel::LessThan => "<"@,
        TokenModel::LessThanOrEqual => "<="@,
        TokenModel::GreaterThan => ">"@,
        TokenModel::GreaterThanOrEqual => ">="@,
        TokenModel::And => "&&"@,
        TokenModel::Or => "||"@,
        TokenModel::Not => "!"@,
        TokenModel::LeftParen => "("@,
        TokenModel::RightParen => ")"@,
        TokenModel::LeftBrace => "{"@,
        TokenModel::RightBrace => "}"@,
        TokenModel::LeftBracket => "["@,
        TokenModel::RightBracket => "]"@,
        TokenModel::Comma => ","@,
        TokenModel::Colon => ":"@,
        TokenModel::Dot => "."@,
        TokenModel::Newline => "\\n"@,
        TokenModel::Eof => "EOF"@,
        _ => ""@,
    }
}

impl Token {
    /// Maps an identifier run to the token it denotes: reserved words map to
    /// their dedicated variants, everything else to an identifier token.
    pub fn keyword_or_identifier(s: &str) -> (t: Token)
        ensures
            t.deep_view() == spec_keyword_or_identifier(s@),
    {
        let v = text::str_to_chars(s);
        Token::keyword_or_identifier_chars(&v)
    }

    /// As [`Token::keyword_or_identifier`], for a run held as characters.
    pub fn keyword_or_identifier_chars(v: &Vec<char>) -> (t: Token)
        ensures
            t.deep_view() == spec_keyword_or_identifier(v@),
    {
        if text::chars_eq_str(v, "const") {
            Token::Const
        } else if text::chars_eq_str(v, "let") {
            Token::Let
        } else if text::chars_eq_str(v, "function") {
            Token::Function
        } else if text::chars_eq_str(v, "class") {
            Token::Class
        } else if text::chars_eq_str(v, "public") {
            Token::Public
        } else if text::chars_eq_str(v, "if") {
            Token::If
        } else if text::chars_eq_str(v, "elseif") {
            Token::Elseif
        } else if text::chars_eq_str(v, "else") {
            Token::Else
        } else if text::chars_eq_str(v, "while") {
            Token::While
        } else if text::chars_eq_str(v, "for") {
            Token::For
        } else if text::chars_eq_str(v, "foreach") {
            Token::Foreach
        } else if text::chars_eq_str(v, "in") {
            Token::In
        } else if text::chars_eq_str(v, "return") {
            Token::Return
        } else if text::chars_eq_str(v, "new") {
            Token::New
        } else if text::chars_eq_str(v, "true") {
            Token::True
        } else if text::chars_eq_str(v, "false") {
            Token::False
        } else if text::chars_eq_str(v, "string") {
            Token::StringType
        } else if text::chars_eq_str(v, "number") {
            Token::NumberType
        } else if text::chars_eq_str(v, "void") {
            Token::VoidType
        } else {
            Token::Identifier(text::chars_to_string(v))
        }
    }

    /// The display text of the token, as given by [`spec_token_text`].
    pub fn as_str(&self) -> (r: &'static str)
        ensures
            r@ == spec_token_text(self.deep_view()),
    {
        match self {
            Token::Const => "const",
            Token::Let => "let",
            Token::Function => "function",
            Token::Class => "class",
            Token::Public => "public",
            Token::If => "if",
            Token::Elseif => "elseif",
            Token::Else => "else",
            Token::While => "while",
            Token::For => "for",
            Token::Foreach => "foreach",
            Token::In => "in",
            Token::Return => "return",
            Token::New => "new",
            Token::True => "true",
            Token::False => "false",
            Token::StringType => "string",
            Token::NumberType => "number",
            Token::VoidType => "void",
            Token::Plus => "+",
            Token::Minus => "-",
            Token::Multiply => "*",
            Token::Divide => "/",
            Token::Assign => "=",
            Token::Equal => "==",
            Token::NotEqual => "!=",
            Token::LessThan => "<",
            Token::LessThanOrEqual => "<=",
            Token::GreaterThan => ">",
            Token::GreaterThanOrEqual => ">=",
            Token::And => "&&",
            Token::Or => "||",
            Token::Not => "!",
            Token::LeftParen => "(",
            Token::RightParen => ")",
            Token::LeftBrace => "{",
            Token::RightBrace => "}",
            Token::LeftBracket => "[",
            Token::RightBracket => "]",
            Token::Comma => ",",
            Token::Colon => ":",
            Token::Dot => ".",
            Token::Newline => "\\n",
            Token::Eof => "EOF",
            _ => "",
        }
    }
}

/// Keyword coverage: every reserved word maps to its dedicated (non
/// identifier) token variant, and every other run maps to an identifier
/// token that carries the run itself — so the identifier path never yields a
/// reserved word as a payload.
pub proof fn lemma_keyword_coverage(w: Seq<char>)
    ensures
        is_reserved_word(w) ==> !(spec_keyword_or_identifier(w) is Identifier),
        !is_reserved_word(w) ==> spec_keyword_or_identifier(w) == TokenModel::Identifier(w),
        spec_keyword_or_identifier(w) matches TokenModel::Identifier(p) ==> p == w
            && !is_reserved_word(p),
{
}


/// A payload rendered as debug text: quote, backslash, newline, tab and
/// carriage return are escaped, everything else is verbatim.
pub open spec fn spec_debug_escape(s: Seq<char>) -> Seq<char>
    decreases s,
{
    if s.len() == 0 {
        Seq::empty()
    } else {
        (if s[0] == '"' {
            seq!['\\', '"']
        } else if s[0] == '\\' {
            seq!['\\', '\\']
        } else if s[0] == '\n' {
            seq!['\\', 'n']
        } else if s[0] == '\t' {
            seq!['\\', 't']
        } else if s[0] == '\r' {
            seq!['\\', 'r']
        } else {
            seq![s[0]]
        }) + spec_debug_escape(s.drop_first())
    }
}

/// The debug rendering of a token: the variant name, with a payload quoted
/// and escaped.
pub open spec fn spec_token_debug(t: TokenModel) -> Seq<char> {
    match t {
        TokenModel::Const => "Const"@,
        TokenModel::Let => "Let"@,
        TokenModel::Function => "Function"@,
        TokenModel::Class => "Class"@,
        TokenModel::Public => "Public"@,
        TokenModel::If => "If"@,
        TokenModel::Elseif => "Elseif"@,
        TokenModel::Else => "Else"@,
        TokenModel::While => "While"@,
        TokenModel::For => "For"@,
        TokenModel::Foreach => "Foreach"@,
        TokenModel::In => "In"@,
        TokenModel::Return => "Return"@,
        TokenModel::New => "New"@,
        TokenModel::True => "True"@,
        TokenModel::False => "False"@,
        TokenModel::StringType => "StringType"@,
        TokenModel::NumberType => "NumberType"@,
        TokenModel::VoidType => "VoidType"@,
        TokenModel::Identifier(s) => "Identifier(\""@ + spec_debug_escape(s) + "\")"@,
        TokenModel::StringLiteral(s) => "StringLiteral(\""@ + spec_debug_escape(s) + "\")"@,
        TokenModel::NumberLiteral(s) => "NumberLiteral(\""@ + spec_debug_escape(s) + "\")"@,
        TokenModel::Plus => "Plus"@,
        TokenModel::Minus => "Minus"@,
        TokenModel::Multiply => "Multiply"@,
        TokenModel::Divide => "Divide"@,
        TokenModel::Assign => "Assign"@,
        TokenModel::Equal => "Equal"@,
        TokenModel::NotEqual => "NotEqual"@,
        TokenModel::LessThan => "LessThan"@,
        TokenModel::LessThanOrEqual => "LessThanOrEqual"@,
        TokenModel::GreaterThan => "GreaterThan"@,
        TokenModel::GreaterThanOrEqual => "GreaterThanOrEqual"@,
        TokenModel::And => "And"@,
        TokenModel::Or => "Or"@,
        TokenModel::Not => "Not"@,
        TokenModel::LeftParen => "LeftParen"@,
        TokenModel::RightParen => "RightParen"@,
        TokenModel::LeftBrace => "LeftBrace"@,
        TokenModel::RightBrace => "RightBrace"@,
        TokenModel::LeftBracket => "LeftBracket"@,
        TokenModel::RightBracket => "RightBracket"@,
        TokenModel::Comma => "Comma"@,
        TokenModel::Colon => "Colon"@,
        TokenModel::Dot => "Dot"@,
        TokenModel::Newline => "Newline"@,
        TokenModel::Eof => "Eof"@,
    }
}

proof fn lemma_debug_escape_push(s: Seq<char>, c: char)
    ensures
        spec_debug_escape(s.push(c)) == spec_debug_escape(s) + (if c == '"' {
            seq!['\\', '"']
        } else if c == '\\' {
            seq!['\\', '\\']
        } else if c == '\n' {
            seq!['\\', 'n']
        } else if c == '\t' {
            seq!['\\', 't']
        } else if c == '\r' {
            seq!['\\', 'r']
        } else {
            seq![c]
        }),
    decreases s,
{
    if s.len() == 0 {
        assert(s.push(c).drop_first() =~= Seq::<char>::empty());
        assert(spec_debug_escape(Seq::<char>::empty()) =~= Seq::<char>::empty());
        assert(spec_debug_escape(s.push(c)) =~= spec_debug_escape(s) + (if c == '"' {
            seq!['\\', '"']
        } else if c == '\\' {
            seq!['\\', '\\']
        } else if c == '\n' {
            seq!['\\', 'n']
        } else if c == '\t' {
            seq!['\\', 't']
        } else if c == '\r' {
            seq!['\\', 'r']
        } else {
            seq![c]
        }));
    } else {
        lemma_debug_escape_push(s.drop_first(), c);
        assert(s.push(c).drop_first() =~= s.drop_first().push(c));
        assert(s.push(c)[0] == s[0]);
        assert(spec_debug_escape(s.push(c)) =~= spec_debug_escape(s) + (if c == '"' {
            seq!['\\', '"']
        } else if c == '\\' {
            seq!['\\', '\\']
        } else if c == '\n' {
            seq!['\\', 'n']
        } else if c == '\t' {
            seq!['\\', 't']
        } else if c == '\r' {
            seq!['\\', 'r']
        } else {
            seq![c]
        }));
    }
}

/// Appends a payload with debug escaping.
fn push_debug_escaped(out: &mut Vec<char>, s: &str)
    ensures
        final(out)@ == old(out)@ + spec_debug_escape(s@),
{
    let chars = crate::text::str_to_chars(s);
    let n = chars.len();
    let mut i: usize = 0;
    proof {
        assert(s@.subrange(0, 0) =~= Seq::<char>::empty());
        assert(out@ =~= old(out)@ + spec_debug_escape(s@.subrange(0, 0)));
    }
    while i < n
        invariant
            n == s@.len(),
            chars@ == s@,
            i <= n,
            out@ == old(out)@ + spec_debug_escape(s@.subrange(0, i as int)),
        decreases n - i,
    {
        let c = chars[i];
        proof {
            lemma_debug_escape_push(s@.subrange(0, i as int), s@[i as int]);
            assert(s@.subrange(0, i as int).push(s@[i as int]) =~= s@.subrange(0, i + 1));
        }
        if c == '"' {
            out.push('\\');
            out.push('"');
        } else if c == '\\' {
            out.push('\\');
            out.push('\\');
        } else if c == '\n' {
            out.push('\\');
            out.push('n');
        } else if c == '\t' {
            out.push('\\');
            out.push('t');
        } else if c == '\r' {
            out.push('\\');
            out.push('r');
        } else {
            out.push(c);
        }
        i = i + 1;
        proof {
            assert(out@ =~= old(out)@ + spec_debug_escape(s@.subrange(0, i as int)));
        }
    }
    proof {
        assert(s@.subrange(0, n as int) =~= s@);
    }
}

impl Token {
    /// Appends the token's debug rendering.
    pub fn push_debug(&self, out: &mut Vec<char>)
        ensures
            final(out)@ == old(out)@ + spec_token_debug(self.deep_view()),
    {
        match self {
            Token::Const => crate::text::push_str_chars(out, "Const"),
            Token::Let => crate::text::push_str_chars(out, "Let"),
            Token::Function => crate::text::push_str_chars(out, "Function"),
            Token::Class => crate::text::push_str_chars(out, "Class"),
            Token::Public => crate::text::push_str_chars(out, "Public"),
            Token::If => crate::text::push_str_chars(out, "If"),
            Token::Elseif => crate::text::push_str_chars(out, "Elseif"),
            Token::Else => crate::text::push_str_chars(out, "Else"),
            Token::While => crate::text::push_str_chars(out, "While"),
            Token::For => crate::text::push_str_chars(out, "For"),
            Token::Foreach => crate::text::push_str_chars(out, "Foreach"),
            Token::In => crate::text::push_str_chars(out, "In"),
            Token::Return => crate::text::push_str_chars(out, "Return"),
            Token::New => crate::text::push_str_chars(out, "New"),
            Token::True => crate::text::push_str_chars(out, "True"),
            Token::False => crate::text::push_str_chars(out, "False"),
            Token::StringType => crate::text::push_str_chars(out, "StringType"),
            Token::NumberType => crate::text::push_str_chars(out, "NumberType"),
            Token::VoidType => crate::text::push_str_chars(out, "VoidType"),
            Token::Identifier(s) => {
                crate::text::push_str_chars(out, "Identifier(\"");
                push_debug_escaped(out, s.as_str());
                crate::text::push_str_chars(out, "\")");
                proof {
                    assert(out@ =~= old(out)@ + spec_token_debug(self.deep_view()));
                }
            },
            Token::StringLiteral(s) => {
                crate::text::push_str_chars(out, "StringLiteral(\"");
                push_debug_escaped(out, s.as_str());
                crate::text::push_str_chars(out, "\")");
                proof {
                    assert(out@ =~= old(out)@ + spec_token_debug(self.deep_view()));
                }
            },
            Token::NumberLiteral(s) => {
                crate::text::push_str_chars(out, "NumberLiteral(\"");
                push_debug_escaped(out, s.as_str());
                crate::text::push_str_chars(out, "\")");
                proof {
                    assert(out@ =~= old(out)@ + spec_token_debug(self.deep_view()));
                }
            },
            Token::Plus => crate::text::push_str_chars(out, "Plus"),
            Token::Minus => crate::text::push_str_chars(out, "Minus"),
            Token::Multiply => crate::text::push_str_chars(out, "Multiply"),
            Token::Divide => crate::text::push_str_chars(out, "Divide"),
            Token::Assign => crate::text::push_str_chars(out, "Assign"),
            Token::Equal => crate::text::push_str_chars(out, "Equal"),
            Token::NotEqual => crate::text::push_str_chars(out, "NotEqual"),
            Token::LessThan => crate::text::push_str_chars(out, "LessThan"),
            Token::LessThanOrEqual => crate::text::push_str_chars(out, "LessThanOrEqual"),
            Token::GreaterThan => crate::text::push_str_chars(out, "GreaterThan"),
            Token::GreaterThanOrEqual => crate::text::push_str_chars(out, "GreaterThanOrEqual"),
            Token::And => crate::text::push_str_chars(out, "And"),
            Token::Or => crate::text::push_str_chars(out, "Or"),
            Token::Not => crate::text::push_str_chars(out, "Not"),
            Token::LeftParen => crate::text::push_str_chars(out, "LeftParen"),
            Token::RightParen => crate::text::push_str_chars(out, "RightParen"),
            Token::LeftBrace => crate::text::push_str_chars(out, "LeftBrace"),
            Token::RightBrace => crate::text::push_str_chars(out, "RightBrace"),
            Token::LeftBracket => crate::text::push_str_chars(out, "LeftBracket"),
            Token::RightBracket => crate::text::push_str_chars(out, "RightBracket"),
            Token::Comma => crate::text::push_str_chars(out, "Comma"),
            Token::Colon => crate::text::push_str_chars(out, "Colon"),
            Token::Dot => crate::text::push_str_chars(out, "Dot"),
            Token::Newline => crate::text::push_str_chars(out, "Newline"),
            Token::Eof => crate::text::push_str_chars(out, "Eof"),
        }
    }
}

} // verus!
