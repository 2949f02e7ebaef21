//! Lexical analysis: the entire source buffer is turned into an ordered
//! token sequence ending in an end-of-input token, or a lexical diagnostic.
//!
//! The scanner is a one-character-lookahead loop. Its meaning is given by
//! [`spec_tokenize`], a small-step specification over the character
//! sequence: [`lex_step`] describes one dispatch on the current character
//! and [`lex_from`] folds the steps into the full token sequence. The
//! executable lexer is proved to return exactly what the specification
//! says, which also makes the token stream a pure function of the input.
//!
//! A number literal is a greedy run of digits and dots; runs with more than
//! one dot are rejected. The token carries the run in canonical decimal
//! form (no superfluous leading zeros, no trailing fractional zeros, no
//! trailing dot), which is also how the emitter prints it.

use vstd::prelude::*;

use crate::error::{CompilerError, ErrorModel};
use crate::text;
use crate::token::{spec_keyword_or_identifier, Token, TokenModel};

verus! {

/// Extending a run by its next character extends the subrange by one.
proof fn lemma_subrange_push(s: Seq<char>, a: int, b: int)
    requires
        0 <= a <= b < s.len(),
    ensures
        s.subrange(a, b).push(s[b]) == s.subrange(a, b + 1),
{
    assert(s.subrange(a, b).push(s[b]) =~= s.subrange(a, b + 1));
}

// ---------------------------------------------------------------------------
// Character classes
// ---------------------------------------------------------------------------
/// Whitespace that the lexer skips (newline is significant and excluded).
pub open spec fn is_space_char(c: char) -> bool {
    c == ' ' || c == '\t' || c == '\r'
}

/// An ASCII decimal digit.
pub open spec fn is_digit_char(c: char) -> bool {
    '0' <= c && c <= '9'
}

/// A character that may start an identifier.
pub open spec fn is_ident_start_char(c: char) -> bool {
    ('a' <= c && c <= 'z') || ('A' <= c && c <= 'Z') || c == '_'
}

/// A character that may continue an identifier.
pub open spec fn is_ident_char(c: char) -> bool {
    is_ident_start_char(c) || is_digit_char(c)
}

/// A character that belongs to a number-literal run.
pub open spec fn is_number_char(c: char) -> bool {
    is_digit_char(c) || c == '.'
}

fn digit_char(c: char) -> (r: bool)
    ensures
        r == is_digit_char(c),
{
    '0' <= c && c <= '9'
}

fn ident_start_char(c: char) -> (r: bool)
    ensures
        r == is_ident_start_char(c),
{
    ('a' <= c && c <= 'z') || ('A' <= c && c <= 'Z') || c == '_'
}

fn ident_char(c: char) -> (r: bool)
    ensures
        r == is_ident_char(c),
{
    ident_start_char(c) || digit_char(c)
}

fn number_char(c: char) -> (r: bool)
    ensures
        r == is_number_char(c),
{
    digit_char(c) || c == '.'
}

// ---------------------------------------------------------------------------
// Runs
// ---------------------------------------------------------------------------
/// The end of the identifier run that starts at `i`.
pub open spec fn ident_end(s: Seq<char>, i: int) -> int
    decreases s.len() - i,
{
    if 0 <= i < s.len() && is_ident_char(s[i]) {
        ident_end(s, i + 1)
    } else {
        i
    }
}

/// The end of the number run that starts at `i`.
pub open spec fn number_end(s: Seq<char>, i: int) -> int
    decreases s.len() - i,
{
    if 0 <= i < s.len() && is_number_char(s[i]) {
        number_end(s, i + 1)
    } else {
        i
    }
}

/// The position of the newline that ends a line comment starting at `i`,
/// or the end of the buffer.
pub open spec fn comment_end(s: Seq<char>, i: int) -> int
    decreases s.len() - i,
{
    if 0 <= i < s.len() && s[i] != '\n' {
        comment_end(s, i + 1)
    } else {
        i
    }
}

proof fn lemma_ident_end_bounds(s: Seq<char>, i: int)
    requires
        0 <= i <= s.len(),
    ensures
        i <= ident_end(s, i) <= s.len(),
        i < s.len() && is_ident_char(s[i]) ==> ident_end(s, i) > i,
    decreases s.len() - i,
{
    if i < s.len() && is_ident_char(s[i]) {
        lemma_ident_end_bounds(s, i + 1);
    }
}

proof fn lemma_number_end_bounds(s: Seq<char>, i: int)
    requires
        0 <= i <= s.len(),
    ensures
        i <= number_end(s, i) <= s.len(),
        i < s.len() && is_number_char(s[i]) ==> number_end(s, i) > i,
    decreases s.len() - i,
{
    if i < s.len() && is_number_char(s[i]) {
        lemma_number_end_bounds(s, i + 1);
    }
}

proof fn lemma_comment_end_bounds(s: Seq<char>, i: int)
    requires
        0 <= i <= s.len(),
    ensures
        i <= comment_end(s, i) <= s.len(),
        i < s.len() && s[i] != '\n' ==> comment_end(s, i) > i,
    decreases s.len() - i,
{
    if i < s.len() && s[i] != '\n' {
        lemma_comment_end_bounds(s, i + 1);
    }
}

// ---------------------------------------------------------------------------
// String literals
// ---------------------------------------------------------------------------
/// The characters denoted by the escapes `\n \t \r \\ \"`.
pub open spec fn spec_escape_char(c: char) -> Option<char> {
    if c == 'n' {
        Some('\n')
    } else if c == 't' {
        Some('\t')
    } else if c == 'r' {
        Some('\r')
    } else if c == '\\' {
        Some('\\')
    } else if c == '"' {
        Some('"')
    } else {
        None
    }
}

/// Reads a string-literal body beginning at `i` (just past the opening
/// quote): the decoded payload and the position just past the closing
/// quote, or the lexical diagnostic message.
pub open spec fn spec_read_string(s: Seq<char>, i: int) -> Result<(Seq<char>, int), Seq<char>>
    decreases s.len() - i,
{
    if i < 0 || i >= s.len() {
        Err("Unterminated string literal"@)
    } else if s[i] == '"' {
        Ok((Seq::empty(), i + 1))
    } else if s[i] == '\\' {
        if i + 1 >= s.len() {
            Err("Unexpected end of input in string literal"@)
        } else {
            match spec_escape_char(s[i + 1]) {
                Some(c) => match spec_read_string(s, i + 2) {
                    Ok(p_j) => Ok((seq![c] + p_j.0, p_j.1)),
                    Err(m) => Err(m),
                },
                None => Err("Invalid escape sequence: \\"@ + seq![s[i + 1]]),
            }
        }
    } else {
        match spec_read_string(s, i + 1) {
            Ok(p_j) => Ok((seq![s[i]] + p_j.0, p_j.1)),
            Err(m) => Err(m),
        }
    }
}

proof fn lemma_read_string_bounds(s: Seq<char>, i: int)
    requires
        0 <= i,
    ensures
        spec_read_string(s, i) matches Ok(p_j) ==> i < p_j.1 <= s.len(),
    decreases s.len() - i,
{
    if 0 <= i < s.len() {
        if s[i] == '"' {
        } else if s[i] == '\\' {
            if i + 1 < s.len() {
                lemma_read_string_bounds(s, i + 2);
            }
        } else {
            lemma_read_string_bounds(s, i + 1);
        }
    }
}

// ---------------------------------------------------------------------------
// Number literals
// ---------------------------------------------------------------------------
/// The position of the first dot at or after `i`, or the end of `w`.
pub open spec fn first_dot(w: Seq<char>, i: int) -> int
    decreases w.len() - i,
{
    if 0 <= i < w.len() && w[i] != '.' {
        first_dot(w, i + 1)
    } else {
        i
    }
}

proof fn lemma_first_dot_bounds(w: Seq<char>, i: int)
    requires
        0 <= i <= w.len(),
    ensures
        i <= first_dot(w, i) <= w.len(),
    decreases w.len() - i,
{
    if i < w.len() && w[i] != '.' {
        lemma_first_dot_bounds(w, i + 1);
    }
}

/// A number run is well formed when it has at most one dot.
pub open spec fn spec_number_valid(w: Seq<char>) -> bool {
    let d = first_dot(w, 0);
    d >= w.len() || first_dot(w, d + 1) >= w.len()
}

/// The end of the run of superfluous leading zeros of an integer part
/// (at least one character is always kept).
pub open spec fn lead_zeros_end(u: Seq<char>, i: int) -> int
    decreases u.len() - i,
{
    if 0 <= i < u.len() - 1 && u[i] == '0' {
        lead_zeros_end(u, i + 1)
    } else {
        i
    }
}

/// The end of a fractional part once trailing zeros are removed.
pub open spec fn trail_zeros_end(u: Seq<char>, j: int) -> int
    decreases j,
{
    if 0 < j <= u.len() && u[j - 1] == '0' {
        trail_zeros_end(u, j - 1)
    } else {
        j
    }
}

/// The canonical decimal form of a well-formed number run: leading zeros of
/// the integer part dropped (keeping at least one digit), trailing zeros of
/// the fractional part dropped, and the dot dropped when nothing follows it.
pub open spec fn spec_canon_number(w: Seq<char>) -> Seq<char> {
    let len = w.len() as int;
    let d = first_dot(w, 0);
    let ip = w.subrange(0, if d <= len { d } else { len });
    let fp = if d < len { w.subrange(d + 1, len) } else { Seq::<char>::empty() };
    let ipn = ip.subrange(lead_zeros_end(ip, 0), ip.len() as int);
    let fpn = fp.subrange(0, trail_zeros_end(fp, fp.len() as int));
    if fpn.len() == 0 {
        ipn
    } else {
        ipn + seq!['.'] + fpn
    }
}

proof fn lemma_lead_zeros_bounds(u: Seq<char>, i: int)
    requires
        0 <= i,
    ensures
        i <= lead_zeros_end(u, i),
        i <= u.len() ==> lead_zeros_end(u, i) <= u.len(),
        i < u.len() ==> lead_zeros_end(u, i) < u.len(),
    decreases u.len() - i,
{
    if 0 <= i < u.len() - 1 && u[i] == '0' {
        lemma_lead_zeros_bounds(u, i + 1);
    }
}

proof fn lemma_trail_zeros_bounds(u: Seq<char>, j: int)
    requires
        0 <= j <= u.len(),
    ensures
        0 <= trail_zeros_end(u, j) <= j,
    decreases j,
{
    if 0 < j <= u.len() && u[j - 1] == '0' {
        lemma_trail_zeros_bounds(u, j - 1);
    }
}

// ---------------------------------------------------------------------------
// One step of the scanner
// ---------------------------------------------------------------------------
/// The outcome of one dispatch of the scanner at a position: a token and
/// the next position, a skip to the next position, or a diagnostic.
pub enum LexStep {
    Emit(TokenModel, int),
    Skip(int),
    Fail(Seq<char>),
}

/// One dispatch of the scanner on the character at position `i`.
pub open spec fn lex_step(s: Seq<char>, i: int) -> LexStep {
    let c = s[i];
    if is_space_char(c) {
        LexStep::Skip(i + 1)
    } else if c == '\n' {
        LexStep::Emit(TokenModel::Newline, i + 1)
    } else if c == '/' && i + 1 < s.len() && s[i + 1] == '/' {
        LexStep::Skip(comment_end(s, i))
    } else if c == '"' {
        match spec_read_string(s, i + 1) {
            Ok(p_j) => LexStep::Emit(TokenModel::StringLiteral(p_j.0), p_j.1),
            Err(m) => LexStep::Fail(m),
        }
    } else if is_digit_char(c) {
        let j = number_end(s, i);
        let w = s.subrange(i, j);
        if spec_number_valid(w) {
            LexStep::Emit(TokenModel::NumberLiteral(spec_canon_number(w)), j)
        } else {
            LexStep::Fail("Invalid number format: "@ + w)
        }
    } else if is_ident_start_char(c) {
        let j = ident_end(s, i);
        LexStep::Emit(spec_keyword_or_identifier(s.subrange(i, j)), j)
    } else if c == '+' {
        LexStep::Emit(TokenModel::Plus, i + 1)
    } else if c == '-' {
        LexStep::Emit(TokenModel::Minus, i + 1)
    } else if c == '*' {
        LexStep::Emit(TokenModel::Multiply, i + 1)
    } else if c == '/' {
        LexStep::Emit(TokenModel::Divide, i + 1)
    } else if c == '=' {
        if i + 1 < s.len() && s[i + 1] == '=' {
            LexStep::Emit(TokenModel::Equal, i + 2)
        } else {
            LexStep::Emit(TokenModel::Assign, i + 1)
        }
    } else if c == '!' {
        if i + 1 < s.len() && s[i + 1] == '=' {
            LexStep::Emit(TokenModel::NotEqual, i + 2)
        } else {
            LexStep::Emit(TokenModel::Not, i + 1)
        }
    } else if c == '<' {
        if i + 1 < s.len() && s[i + 1] == '=' {
            LexStep::Emit(TokenModel::LessThanOrEqual, i + 2)
        } else {
            LexStep::Emit(TokenModel::LessThan, i + 1)
        }
    } else if c == '>' {
        if i + 1 < s.len() && s[i + 1] == '=' {
            LexStep::Emit(TokenModel::GreaterThanOrEqual, i + 2)
        } else {
            LexStep::Emit(TokenModel::GreaterThan, i + 1)
        }
    } else if c == '&' {
        if i + 1 < s.len() && s[i + 1] == '&' {
            LexStep::Emit(TokenModel::And, i + 2)
        } else {
            LexStep::Fail("Unexpected character: "@ + seq![c])
        }
    } else if c == '|' {
        if i + 1 < s.len() && s[i + 1] == '|' {
            LexStep::Emit(TokenModel::Or, i + 2)
        } else {
            LexStep::Fail("Unexpected character: "@ + seq![c])
        }
    } else if c == '(' {
        LexStep::Emit(TokenModel::LeftParen, i + 1)
    } else if c == ')' {
        LexStep::Emit(TokenModel::RightParen, i + 1)
    } else if c == '{' {
        LexStep::Emit(TokenModel::LeftBrace, i + 1)
    } else if c == '}' {
        LexStep::Emit(TokenModel::RightBrace, i + 1)
    } else if c == '[' {
        LexStep::Emit(TokenModel::LeftBracket, i + 1)
    } else if c == ']' {
        LexStep::Emit(TokenModel::RightBracket, i + 1)
    } else if c == ',' {
        LexStep::Emit(TokenModel::Comma, i + 1)
    } else if c == ':' {
        LexStep::Emit(TokenModel::Colon, i + 1)
    } else if c == '.' {
        LexStep::Emit(TokenModel::Dot, i + 1)
    } else {
        LexStep::Fail("Unexpected character: "@ + seq![c])
    }
}

proof fn lemma_lex_step_bounds(s: Seq<char>, i: int)
    requires
        0 <= i < s.len(),
    ensures
        lex_step(s, i) matches LexStep::Emit(t, j) ==> i < j <= s.len(),
        lex_step(s, i) matches LexStep::Skip(j) ==> i < j <= s.len(),
{
    let c = s[i];
    if c == '/' && i + 1 < s.len() && s[i + 1] == '/' {
        lemma_comment_end_bounds(s, i);
    } else if c == '"' {
        lemma_read_string_bounds(s, i + 1);
    } else if is_digit_char(c) {
        lemma_number_end_bounds(s, i);
    } else if is_ident_start_char(c) {
        lemma_ident_end_bounds(s, i);
    }
}

// ---------------------------------------------------------------------------
// The whole scan
// ---------------------------------------------------------------------------
/// Folds scanner steps from position `i` to the end of the buffer, closing
/// the stream with the end-of-input token.
pub open spec fn lex_from(s: Seq<char>, i: int) -> Result<Seq<TokenModel>, Seq<char>>
    decreases s.len() - i,
{
    if i < 0 || i >= s.len() {
        Ok(seq![TokenModel::Eof])
    } else {
        match lex_step(s, i) {
            LexStep::Emit(t, j) => if i < j && j <= s.len() {
                match lex_from(s, j) {
                    Ok(rest) => Ok(seq![t] + rest),
                    Err(m) => Err(m),
                }
            } else {
                Ok(seq![TokenModel::Eof])
            },
            LexStep::Skip(j) => if i < j && j <= s.len() {
                lex_from(s, j)
            } else {
                Ok(seq![TokenModel::Eof])
            },
            LexStep::Fail(m) => Err(m),
        }
    }
}

/// The token sequence of a whole source buffer, or the lexical diagnostic.
/// An empty buffer is rejected.
pub open spec fn spec_tokenize(s: Seq<char>) -> Result<Seq<TokenModel>, Seq<char>> {
    if s.len() == 0 {
        Err("Empty source code"@)
    } else {
        lex_from(s, 0)
    }
}

/// Joins already-produced tokens with the outcome of the remaining scan.
pub open spec fn lex_join(acc: Seq<TokenModel>, r: Result<Seq<TokenModel>, Seq<char>>) -> Result<
    Seq<TokenModel>,
    Seq<char>,
> {
    match r {
        Ok(rest) => Ok(acc + rest),
        Err(m) => Err(m),
    }
}

/// The loop invariant of the scanner: what was already produced, joined
/// with the remaining scan, is the whole scan.
pub open spec fn lex_inv(s: Seq<char>, acc: Seq<TokenModel>, i: int) -> bool {
    lex_join(acc, lex_from(s, i)) == lex_from(s, 0)
}

proof fn lemma_lex_inv_step(s: Seq<char>, acc: Seq<TokenModel>, i: int)
    requires
        0 <= i < s.len(),
        lex_inv(s, acc, i),
    ensures
        lex_step(s, i) matches LexStep::Emit(t, j) ==> (i < j ==> lex_inv(s, acc.push(t), j)),
        lex_step(s, i) matches LexStep::Skip(j) ==> (i < j ==> lex_inv(s, acc, j)),
        lex_step(s, i) matches LexStep::Fail(m) ==> lex_from(s, 0) == Err::<
            Seq<TokenModel>,
            Seq<char>,
        >(m),
{
    lemma_lex_step_bounds(s, i);
    match lex_step(s, i) {
        LexStep::Emit(t, j) => {
            if i < j && j <= s.len() {
                match lex_from(s, j) {
                    Ok(rest) => {
                        assert(acc + (seq![t] + rest) =~= acc.push(t) + rest);
                    },
                    Err(_) => {},
                }
            }
        },
        LexStep::Skip(_) => {},
        LexStep::Fail(_) => {},
    }
}

// ---------------------------------------------------------------------------
// The executable lexer
// ---------------------------------------------------------------------------
/// The lexical analyzer. One instance scans one buffer at a time; the
/// buffer, cursor and one-character lookahead live in the instance.
pub struct Lexer {
    input: Vec<char>,
    position: usize,
    current_char: Option<char>,
}

impl Lexer {
    /// The cursor is inside the buffer and the lookahead mirrors it.
    pub closed spec fn wf(&self) -> bool {
        &&& self.position <= self.input@.len()
        &&& self.current_char == (if self.position < self.input@.len() {
            Some(self.input@[self.position as int])
        } else {
            None
        })
    }

    /// Creates a lexer with an empty buffer.
    pub fn new() -> (r: Lexer)
        ensures
            r.wf(),
    {
        Lexer { input: Vec::new(), position: 0, current_char: None }
    }

    /// Advances the cursor by one character.
    fn advance(&mut self)
        requires
            old(self).wf(),
            old(self).position < old(self).input@.len(),
        ensures
            final(self).wf(),
            final(self).input == old(self).input,
            final(self).position == old(self).position + 1,
    {
        let n = self.input.len();
        self.position = self.position + 1;
        self.current_char = if self.position < n {
            Some(self.input[self.position])
        } else {
            None
        };
    }

    /// Looks at the next character without advancing.
    fn peek(&self) -> (r: Option<char>)
        requires
            self.wf(),
        ensures
            r == (if self.position + 1 < self.input@.len() {
                Some(self.input@[self.position + 1])
            } else {
                None::<char>
            }),
    {
        if self.position < self.input.len() && self.position + 1 < self.input.len() {
            Some(self.input[self.position + 1])
        } else {
            None
        }
    }

    /// Skips a line comment: stops at the next newline or at end of input.
    #[verifier::loop_isolation(false)]
    fn skip_comment(&mut self)
        requires
            old(self).wf(),
        ensures
            final(self).wf(),
            final(self).input == old(self).input,
            final(self).position == comment_end(old(self).input@, old(self).position as int),
    {
        proof {
            lemma_comment_end_bounds(self.input@, self.position as int);
        }
        while self.current_char.is_some() && self.current_char.unwrap() != '\n'
            invariant
                self.wf(),
                self.input == old(self).input,
                old(self).position <= self.position,
                comment_end(self.input@, self.position as int) == comment_end(
                    old(self).input@,
                    old(self).position as int,
                ),
            decreases self.input@.len() - self.position,
        {
            self.advance();
        }
    }

    /// Reads a string literal body; the cursor stands on the opening quote.
    #[verifier::loop_isolation(false)]
    fn read_string(&mut self) -> (r: Result<Token, CompilerError>)
        requires
            old(self).wf(),
            old(self).position < old(self).input@.len(),
            old(self).input@[old(self).position as int] == '"',
        ensures
            final(self).wf(),
            final(self).input == old(self).input,
            match spec_read_string(old(self).input@, old(self).position + 1) {
                Ok(p_j) => {
                    &&& r matches Ok(t)
                    &&& t.deep_view() == TokenModel::StringLiteral(p_j.0)
                    &&& final(self).position == p_j.1
                },
                Err(m) => r matches Err(e) && e.deep_view() == ErrorModel::Lex(m),
            },
    {
        let ghost s = self.input@;
        let ghost start: int = self.position as int + 1;
        self.advance();  // skip the opening quote
        let mut value: Vec<char> = Vec::new();
        while self.current_char.is_some()
            invariant
                self.wf(),
                self.input == old(self).input,
                s == self.input@,
                match spec_read_string(s, self.position as int) {
                    Ok(p_j) => spec_read_string(s, start) == Ok::<_, Seq<char>>(
                        (value@ + p_j.0, p_j.1),
                    ),
                    Err(m) => spec_read_string(s, start) == Err::<(Seq<char>, int), _>(m),
                },
            decreases self.input@.len() - self.position,
        {
            let ch = self.current_char.unwrap();
            if ch == '"' {
                self.advance();  // skip the closing quote
                proof {
                    assert(value@ + Seq::<char>::empty() =~= value@);
                }
                return Ok(Token::StringLiteral(text::chars_to_string(&value)));
            }
            if ch == '\\' {
                let ghost bpos = self.position as int;
                self.advance();
                match self.current_char {
                    Some(c2) => {
                        let decoded: char;
                        if c2 == 'n' {
                            decoded = '\n';
                        } else if c2 == 't' {
                            decoded = '\t';
                        } else if c2 == 'r' {
                            decoded = '\r';
                        } else if c2 == '\\' {
                            decoded = '\\';
                        } else if c2 == '"' {
                            decoded = '"';
                        } else {
                            let mut msg: Vec<char> = Vec::new();
                            text::push_str_chars(&mut msg, "Invalid escape sequence: \\");
                            msg.push(c2);
                            proof {
                                assert(msg@ =~= "Invalid escape sequence: \\"@ + seq![c2]);
                            }
                            return Err(CompilerError::LexError(text::chars_to_string(&msg)));
                        }
                        let ghost old_value = value@;
                        value.push(decoded);
                        self.advance();
                        proof {
                            match spec_read_string(s, self.position as int) {
                                Ok(p_j) => {
                                    assert(old_value + (seq![decoded] + p_j.0) =~= value@ + p_j.0);
                                },
                                Err(_) => {},
                            }
                        }
                    },
                    None => {
                        return Err(
                            CompilerError::LexError(
                                String::from_str("Unexpected end of input in string literal"),
                            ),
                        );
                    },
                }
            } else {
                let ghost old_value = value@;
                value.push(ch);
                self.advance();
                proof {
                    match spec_read_string(s, self.position as int) {
                        Ok(p_j) => {
                            assert(old_value + (seq![ch] + p_j.0) =~= value@ + p_j.0);
                        },
                        Err(_) => {},
                    }
                }
            }
        }
        Err(CompilerError::LexError(String::from_str("Unterminated string literal")))
    }

    /// Reads a number-literal run; the cursor stands on its first digit.
    /// A run with more than one dot is a lexical diagnostic; a well-formed
    /// run yields a token carrying its canonical decimal form.
    #[verifier::loop_isolation(false)]
    fn read_number(&mut self) -> (r: Result<Token, CompilerError>)
        requires
            old(self).wf(),
        ensures
            final(self).wf(),
            final(self).input == old(self).input,
            final(self).position == number_end(old(self).input@, old(self).position as int),
            ({
                let w = old(self).input@.subrange(
                    old(self).position as int,
                    number_end(old(self).input@, old(self).position as int),
                );
                if spec_number_valid(w) {
                    r matches Ok(t) && t.deep_view() == TokenModel::NumberLiteral(
                        spec_canon_number(w),
                    )
                } else {
                    r matches Err(e) && e.deep_view() == ErrorModel::Lex(
                        "Invalid number format: "@ + w,
                    )
                }
            }),
    {
        let ghost s = self.input@;
        let ghost i0 = self.position as int;
        let mut value: Vec<char> = Vec::new();
        proof {
            lemma_number_end_bounds(s, i0);
        }
        while self.current_char.is_some() && number_char(self.current_char.unwrap())
            invariant
                self.wf(),
                self.input == old(self).input,
                s == self.input@,
                i0 <= self.position,
                value@ == s.subrange(i0, self.position as int),
                number_end(s, self.position as int) == number_end(s, i0),
            decreases self.input@.len() - self.position,
        {
            let ch = self.current_char.unwrap();
            let ghost p0 = self.position as int;
            value.push(ch);
            self.advance();
            proof {
                lemma_subrange_push(s, i0, p0);
            }
        }
        let ghost w = s.subrange(i0, number_end(s, i0));
        proof {
            assert(value@ == w);
        }
        // a run with two or more dots is malformed
        if number_run_valid(&value) {
            let canon = canon_number_chars(&value);
            Ok(Token::NumberLiteral(text::chars_to_string(&canon)))
        } else {
            let mut msg: Vec<char> = Vec::new();
            text::push_str_chars(&mut msg, "Invalid number format: ");
            text::push_chars(&mut msg, &value);
            Err(CompilerError::LexError(text::chars_to_string(&msg)))
        }
    }

    /// Reads an identifier run and maps it through the keyword table; the
    /// cursor stands on its first character.
    #[verifier::loop_isolation(false)]
    fn read_identifier(&mut self) -> (t: Token)
        requires
            old(self).wf(),
        ensures
            final(self).wf(),
            final(self).input == old(self).input,
            final(self).position == ident_end(old(self).input@, old(self).position as int),
            t.deep_view() == spec_keyword_or_identifier(
                old(self).input@.subrange(
                    old(self).position as int,
                    ident_end(old(self).input@, old(self).position as int),
                ),
            ),
    {
        let ghost s = self.input@;
        let ghost i0 = self.position as int;
        let mut value: Vec<char> = Vec::new();
        proof {
            lemma_ident_end_bounds(s, i0);
        }
        while self.current_char.is_some() && ident_char(
            self.current_char.unwrap(),
        )
            invariant
                self.wf(),
                self.input == old(self).input,
                s == self.input@,
                i0 <= self.position,
                value@ == s.subrange(i0, self.position as int),
                ident_end(s, self.position as int) == ident_end(s, i0),
            decreases self.input@.len() - self.position,
        {
            let ch = self.current_char.unwrap();
            let ghost p0 = self.position as int;
            value.push(ch);
            self.advance();
            proof {
                lemma_subrange_push(s, i0, p0);
            }
        }
        Token::keyword_or_identifier_chars(&value)
    }

    /// Scans the whole buffer into tokens, ending with the end-of-input
    /// token; an empty buffer, an unknown character, a malformed escape or
    /// number, or an unterminated string is a lexical diagnostic. The
    /// outcome is exactly [`spec_tokenize`] of the buffer, so equal buffers
    /// always give equal token streams.
    #[verifier::loop_isolation(false)]
    pub fn tokenize(&mut self, source_code: &str) -> (r: Result<Vec<Token>, CompilerError>)
        ensures
            match r {
                Ok(tokens) => spec_tokenize(source_code@) == Ok::<_, Seq<char>>(
                    tokens.deep_view(),
                ),
                Err(e) => {
                    &&& e.deep_view() matches ErrorModel::Lex(m)
                    &&& spec_tokenize(source_code@) == Err::<Seq<TokenModel>, _>(m)
                },
            },
    {
        if source_code.is_empty() {
            return Err(CompilerError::LexError(String::from_str("Empty source code")));
        }
        self.input = text::str_to_chars(source_code);
        self.position = 0;
        self.current_char = Some(self.input[0]);
        let ghost s = self.input@;
        let mut tokens: Vec<Token> = Vec::new();
        proof {
            assert(tokens.deep_view() =~= Seq::<TokenModel>::empty());
            match lex_from(s, 0) {
                Ok(rest) => {
                    assert(Seq::<TokenModel>::empty() + rest =~= rest);
                },
                Err(_) => {},
            }
        }
        while self.current_char.is_some()
            invariant
                self.wf(),
                s == self.input@,
                s == source_code@,
                s.len() > 0,
                lex_inv(s, tokens.deep_view(), self.position as int),
            decreases self.input@.len() - self.position,
        {
            let ch = self.current_char.unwrap();
            let ghost i = self.position as int;
            let ghost acc = tokens.deep_view();
            proof {
                lemma_lex_step_bounds(s, i);
                lemma_lex_inv_step(s, acc, i);
            }
            let mut emitted: Option<Token> = None;
            if ch == ' ' || ch == '\t' || ch == '\r' {
                self.advance();
            } else if ch == '\n' {
                emitted = Some(Token::Newline);
                self.advance();
            } else if ch == '/' && self.peek_is('/') {
                self.skip_comment();
            } else if ch == '"' {
                match self.read_string() {
                    Ok(t) => emitted = Some(t),
                    Err(e) => {
                        return Err(e);
                    },
                }
            } else if digit_char(ch) {
                match self.read_number() {
                    Ok(t) => emitted = Some(t),
                    Err(e) => {
                        return Err(e);
                    },
                }
            } else if ident_start_char(ch) {
                emitted = Some(self.read_identifier());
            } else if ch == '+' {
                emitted = Some(Token::Plus);
                self.advance();
            } else if ch == '-' {
                emitted = Some(Token::Minus);
                self.advance();
            } else if ch == '*' {
                emitted = Some(Token::Multiply);
                self.advance();
            } else if ch == '/' {
                emitted = Some(Token::Divide);
                self.advance();
            } else if ch == '=' {
                if self.peek_is('=') {
                    emitted = Some(Token::Equal);
                    self.advance();
                    self.advance();
                } else {
                    emitted = Some(Token::Assign);
                    self.advance();
                }
            } else if ch == '!' {
                if self.peek_is('=') {
                    emitted = Some(Token::NotEqual);
                    self.advance();
                    self.advance();
                } else {
                    emitted = Some(Token::Not);
                    self.advance();
                }
            } else if ch == '<' {
                if self.peek_is('=') {
                    emitted = Some(Token::LessThanOrEqual);
                    self.advance();
                    self.advance();
                } else {
                    emitted = Some(Token::LessThan);
                    self.advance();
                }
            } else if ch == '>' {
                if self.peek_is('=') {
                    emitted = Some(Token::GreaterThanOrEqual);
                    self.advance();
                    self.advance();
                } else {
                    emitted = Some(Token::GreaterThan);
                    self.advance();
                }
            } else if ch == '&' {
                if self.peek_is('&') {
                    emitted = Some(Token::And);
                    self.advance();
                    self.advance();
                } else {
                    return Err(CompilerError::LexError(unexpected_character_message(ch)));
                }
            } else if ch == '|' {
                if self.peek_is('|') {
                    emitted = Some(Token::Or);
                    self.advance();
                    self.advance();
                } else {
                    return Err(CompilerError::LexError(unexpected_character_message(ch)));
                }
            } else if ch == '(' {
                emitted = Some(Token::LeftParen);
                self.advance();
            } else if ch == ')' {
                emitted = Some(Token::RightParen);
                self.advance();
            } else if ch == '{' {
                emitted = Some(Token::LeftBrace);
                self.advance();
            } else if ch == '}' {
                emitted = Some(Token::RightBrace);
                self.advance();
            } else if ch == '[' {
                emitted = Some(Token::LeftBracket);
                self.advance();
            } else if ch == ']' {
                emitted = Some(Token::RightBracket);
                self.advance();
            } else if ch == ',' {
                emitted = Some(Token::Comma);
                self.advance();
            } else if ch == ':' {
                emitted = Some(Token::Colon);
                self.advance();
            } else if ch == '.' {
                emitted = Some(Token::Dot);
                self.advance();
            } else {
                return Err(CompilerError::LexError(unexpected_character_message(ch)));
            }
            match emitted {
                Some(t) => {
                    let ghost old_deep = tokens.deep_view();
                    tokens.push(t);
                    proof {
                        assert(tokens.deep_view() =~= old_deep.push(t.deep_view()));
                    }
                },
                None => {},
            }
        }
        let ghost acc = tokens.deep_view();
        let ghost old_deep = tokens.deep_view();
        tokens.push(Token::Eof);
        proof {
            assert(tokens.deep_view() =~= old_deep.push(TokenModel::Eof));
            assert(acc + seq![TokenModel::Eof] =~= tokens.deep_view());
        }
        Ok(tokens)
    }

    /// Reports whether the next character equals `expected`.
    fn peek_is(&self, expected: char) -> (r: bool)
        requires
            self.wf(),
        ensures
            r == (self.position + 1 < self.input@.len() && self.input@[self.position + 1]
                == expected),
    {
        match self.peek() {
            Some(c) => c == expected,
            None => false,
        }
    }

    /// Splits the buffer into whitespace-separated words (the light-weight
    /// scan kept for the older transport shape). An empty buffer is a
    /// lexical diagnostic.
    pub fn tokenize_strings(&self, source_code: &str) -> (r: Result<Vec<String>, CompilerError>)
        ensures
            match r {
                Ok(words) => source_code@.len() != 0 && words.deep_view() == split_words_from(
                    source_code@,
                    0,
                ),
                Err(e) => source_code@.len() == 0 && e.deep_view() == ErrorModel::Lex(
                    "Empty source code"@,
                ),
            },
    {
        if source_code.is_empty() {
            return Err(CompilerError::LexError(String::from_str("Empty source code")));
        }
        Ok(split_whitespace_words(source_code))
    }
}

impl Default for Lexer {
    /// An empty-buffer lexer, as [`Lexer::new`] gives.
    fn default() -> (r: Lexer)
        ensures
            r.wf(),
    {
        Lexer::new()
    }
}

// ---------------------------------------------------------------------------
// Whitespace splitting for the older transport shape
// ---------------------------------------------------------------------------
/// A Unicode whitespace character.
pub open spec fn is_unicode_space(c: char) -> bool {
    ||| c == '\u{0009}'
    ||| c == '\u{000A}'
    ||| c == '\u{000B}'
    ||| c == '\u{000C}'
    ||| c == '\u{000D}'
    ||| c == ' '
    ||| c == '\u{0085}'
    ||| c == '\u{00A0}'
    ||| c == '\u{1680}'
    ||| c == '\u{2000}'
    ||| c == '\u{2001}'
    ||| c == '\u{2002}'
    ||| c == '\u{2003}'
    ||| c == '\u{2004}'
    ||| c == '\u{2005}'
    ||| c == '\u{2006}'
    ||| c == '\u{2007}'
    ||| c == '\u{2008}'
    ||| c == '\u{2009}'
    ||| c == '\u{200A}'
    ||| c == '\u{2028}'
    ||| c == '\u{2029}'
    ||| c == '\u{202F}'
    ||| c == '\u{205F}'
    ||| c == '\u{3000}'
}

/// Executable check matching [`is_unicode_space`].
pub fn unicode_space_char(c: char) -> (r: bool)
    ensures
        r == is_unicode_space(c),
{
    c == '\u{0009}' || c == '\u{000A}' || c == '\u{000B}' || c == '\u{000C}' || c == '\u{000D}'
        || c == ' ' || c == '\u{0085}' || c == '\u{00A0}' || c == '\u{1680}' || c == '\u{2000}'
        || c == '\u{2001}' || c == '\u{2002}' || c == '\u{2003}' || c == '\u{2004}' || c
        == '\u{2005}' || c == '\u{2006}' || c == '\u{2007}' || c == '\u{2008}' || c == '\u{2009}'
        || c == '\u{200A}' || c == '\u{2028}' || c == '\u{2029}' || c == '\u{202F}' || c
        == '\u{205F}' || c == '\u{3000}'
}

/// The end of the non-whitespace word that starts at `i`.
pub open spec fn word_end(s: Seq<char>, i: int) -> int
    decreases s.len() - i,
{
    if 0 <= i < s.len() && !is_unicode_space(s[i]) {
        word_end(s, i + 1)
    } else {
        i
    }
}

proof fn lemma_word_end_bounds(s: Seq<char>, i: int)
    requires
        0 <= i <= s.len(),
    ensures
        i <= word_end(s, i) <= s.len(),
        i < s.len() && !is_unicode_space(s[i]) ==> word_end(s, i) > i,
    decreases s.len() - i,
{
    if i < s.len() && !is_unicode_space(s[i]) {
        lemma_word_end_bounds(s, i + 1);
    }
}

/// The whitespace-separated words of `s` from position `i` on.
pub open spec fn split_words_from(s: Seq<char>, i: int) -> Seq<Seq<char>>
    decreases s.len() - i,
{
    if i < 0 || i >= s.len() {
        Seq::empty()
    } else if is_unicode_space(s[i]) {
        split_words_from(s, i + 1)
    } else {
        let j = word_end(s, i);
        if i < j && j <= s.len() {
            seq![s.subrange(i, j)] + split_words_from(s, j)
        } else {
            Seq::empty()
        }
    }
}

/// Splits a buffer into its whitespace-separated words.
#[verifier::loop_isolation(false)]
fn split_whitespace_words(s: &str) -> (r: Vec<String>)
    ensures
        r.deep_view() == split_words_from(s@, 0),
{
    let chars = text::str_to_chars(s);
    let ghost sv = s@;
    let n = chars.len();
    let mut words: Vec<String> = Vec::new();
    let mut i: usize = 0;
    while i < n
        invariant
            n == sv.len(),
            chars@ == sv,
            i <= n,
            split_words_from(sv, 0) == words.deep_view() + split_words_from(sv, i as int),
        decreases n - i,
    {
        let c = chars[i];
        if unicode_space_char(c) {
            i = i + 1;
        } else {
            let ghost j_spec = word_end(sv, i as int);
            proof {
                lemma_word_end_bounds(sv, i as int);
            }
            let mut word: Vec<char> = Vec::new();
            let start = i;
            while i < n && !unicode_space_char(chars[i])
                invariant
                    n == sv.len(),
                    chars@ == sv,
                    start <= i <= n,
                    word@ == sv.subrange(start as int, i as int),
                    word_end(sv, i as int) == word_end(sv, start as int),
                decreases n - i,
            {
                word.push(chars[i]);
                i = i + 1;
                proof {
                    assert(word@ =~= sv.subrange(start as int, i as int));
                }
            }
            let ghost old_words = words.deep_view();
            words.push(text::chars_to_string(&word));
            proof {
                assert(words.deep_view() =~= old_words.push(word@));
                assert(old_words.push(word@) =~= old_words + seq![
                    sv.subrange(start as int, i as int),
                ]);
                assert((old_words + seq![sv.subrange(start as int, i as int)])
                    + split_words_from(sv, i as int) =~= old_words + (seq![
                    sv.subrange(start as int, i as int),
                ] + split_words_from(sv, i as int)));
            }
        }
    }
    proof {
        assert(words.deep_view() + Seq::<Seq<char>>::empty() =~= words.deep_view());
    }
    words
}

// ---------------------------------------------------------------------------
// Number canonicalization (executable)
// ---------------------------------------------------------------------------
/// Reports whether a number run has at most one dot.
fn number_run_valid(w: &Vec<char>) -> (r: bool)
    ensures
        r == spec_number_valid(w@),
{
    let n = w.len();
    let d = find_dot(w, 0);
    if d == n {
        return true;
    }
    let d2 = find_dot(w, d + 1);
    d2 == n
}

/// Finds the first dot at or after `from`, or the length of `w`.
#[verifier::loop_isolation(false)]
fn find_dot(w: &Vec<char>, from: usize) -> (d: usize)
    requires
        from <= w.len(),
    ensures
        d == first_dot(w@, from as int),
        from <= d <= w.len(),
{
    proof {
        lemma_first_dot_bounds(w@, from as int);
    }
    let n = w.len();
    let mut i = from;
    while i < n && w[i] != '.'
        invariant
            n == w@.len(),
            from <= i <= n,
            first_dot(w@, i as int) == first_dot(w@, from as int),
        decreases n - i,
    {
        i = i + 1;
    }
    i
}

/// Computes the canonical decimal form of a well-formed number run.
#[verifier::loop_isolation(false)]
fn canon_number_chars(w: &Vec<char>) -> (out: Vec<char>)
    ensures
        out@ == spec_canon_number(w@),
{
    let n = w.len();
    let d = find_dot(w, 0);
    let ghost ip = w@.subrange(0, d as int);
    let ghost fp = if d < n {
        w@.subrange(d + 1, n as int)
    } else {
        Seq::<char>::empty()
    };
    // leading zeros of the integer part, keeping at least one character
    proof {
        lemma_lead_zeros_bounds(ip, 0);
    }
    let mut a: usize = 0;
    while a + 1 < d && w[a] == '0'
        invariant
            n == w@.len(),
            d <= n,
            ip == w@.subrange(0, d as int),
            a <= d,
            a < d || d == 0,
            lead_zeros_end(ip, a as int) == lead_zeros_end(ip, 0),
        decreases d - a,
    {
        a = a + 1;
    }
    proof {
        assert(lead_zeros_end(ip, a as int) == a as int);
    }
    // trailing zeros of the fractional part
    let fstart = if d < n {
        d + 1
    } else {
        n
    };
    let ghost flen = fp.len() as int;
    proof {
        assert(flen == n - fstart);
        lemma_trail_zeros_bounds(fp, flen);
    }
    let mut b: usize = n - fstart;
    while b > 0 && w[fstart + b - 1] == '0'
        invariant
            n == w@.len(),
            fstart <= n,
            flen == n - fstart,
            fp == (if fstart < n {
                w@.subrange(fstart as int, n as int)
            } else {
                Seq::<char>::empty()
            }),
            b <= flen,
            trail_zeros_end(fp, b as int) == trail_zeros_end(fp, flen),
        decreases b,
    {
        b = b - 1;
    }
    proof {
        assert(trail_zeros_end(fp, b as int) == b as int);
    }
    let mut out: Vec<char> = Vec::new();
    let mut i = a;
    while i < d
        invariant
            n == w@.len(),
            a <= d <= n,
            a <= i <= d,
            out@ == w@.subrange(a as int, i as int),
        decreases d - i,
    {
        out.push(w[i]);
        i = i + 1;
        proof {
            assert(out@ =~= w@.subrange(a as int, i as int));
        }
    }
    if b > 0 {
        out.push('.');
        proof {
            assert(out@ =~= w@.subrange(a as int, d as int) + seq!['.'] + w@.subrange(
                fstart as int,
                fstart as int,
            ));
        }
        let mut j: usize = 0;
        while j < b
            invariant
                n == w@.len(),
                fstart + b <= n,
                j <= b,
                out@ == w@.subrange(a as int, d as int) + seq!['.'] + w@.subrange(
                    fstart as int,
                    fstart + j,
                ),
            decreases b - j,
        {
            out.push(w[fstart + j]);
            j = j + 1;
            proof {
                assert(out@ =~= w@.subrange(a as int, d as int) + seq!['.'] + w@.subrange(
                    fstart as int,
                    fstart + j,
                ));
            }
        }
    }
    proof {
        let len = w@.len() as int;
        let dd = first_dot(w@, 0);
        let ipn = ip.subrange(lead_zeros_end(ip, 0), ip.len() as int);
        let fpn = fp.subrange(0, trail_zeros_end(fp, fp.len() as int));
        assert(ipn =~= w@.subrange(a as int, d as int));
        assert(fpn =~= w@.subrange(fstart as int, fstart + b));
        if b > 0 {
            assert(out@ =~= ipn + seq!['.'] + fpn);
        } else {
            assert(out@ =~= ipn);
        }
    }
    out
}

/// Builds the message `Unexpected character: c`.
fn unexpected_character_message(c: char) -> (r: String)
    ensures
        r@ == "Unexpected character: "@ + seq![c],
{
    let mut msg: Vec<char> = Vec::new();
    text::push_str_chars(&mut msg, "Unexpected character: ");
    msg.push(c);
    proof {
        assert(msg@ =~= "Unexpected character: "@ + seq![c]);
    }
    text::chars_to_string(&msg)
}


// ---------------------------------------------------------------------------
// Laws of the scan
// ---------------------------------------------------------------------------
/// Lexer determinism: the token stream is a pure function of the buffer,
/// so equal buffers scan to equal streams.
pub proof fn lemma_lexer_deterministic(s1: Seq<char>, s2: Seq<char>)
    requires
        s1 == s2,
    ensures
        spec_tokenize(s1) == spec_tokenize(s2),
{
}

/// Empty-input rejection: the empty buffer is a lexical diagnostic.
pub proof fn lemma_empty_input_rejected()
    ensures
        spec_tokenize(Seq::<char>::empty()) == Err::<Seq<TokenModel>, Seq<char>>(
            "Empty source code"@,
        ),
{
}

proof fn lemma_ident_run_full(w: Seq<char>, i: int)
    requires
        0 <= i <= w.len(),
        forall|k: int| 0 <= k < w.len() ==> is_ident_char(#[trigger] w[k]),
    ensures
        ident_end(w, i) == w.len(),
    decreases w.len() - i,
{
    if i < w.len() {
        lemma_ident_run_full(w, i + 1);
    }
}

proof fn lemma_number_run_full(w: Seq<char>, i: int)
    requires
        0 <= i <= w.len(),
        forall|k: int| 0 <= k < w.len() ==> is_number_char(#[trigger] w[k]),
    ensures
        number_end(w, i) == w.len(),
    decreases w.len() - i,
{
    if i < w.len() {
        lemma_number_run_full(w, i + 1);
    }
}

/// Identifier round trip: a buffer that is exactly one identifier run that
/// is no reserved word scans to an identifier token carrying the run
/// itself, then end of input.
pub proof fn lemma_identifier_roundtrip(w: Seq<char>)
    requires
        w.len() > 0,
        is_ident_start_char(w[0]),
        forall|k: int| 0 <= k < w.len() ==> is_ident_char(#[trigger] w[k]),
        !crate::token::is_reserved_word(w),
    ensures
        spec_tokenize(w) == Ok::<_, Seq<char>>(
            seq![TokenModel::Identifier(w), TokenModel::Eof],
        ),
{
    lemma_ident_run_full(w, 0);
    assert(w.subrange(0, w.len() as int) =~= w);
    assert(lex_step(w, 0) == LexStep::Emit(TokenModel::Identifier(w), w.len() as int));
    assert(lex_from(w, w.len() as int) == Ok::<_, Seq<char>>(seq![TokenModel::Eof]));
    assert(seq![TokenModel::Identifier(w)] + seq![TokenModel::Eof] =~= seq![
        TokenModel::Identifier(w),
        TokenModel::Eof,
    ]);
}

/// Number round trip: a buffer that is exactly one well-formed number run
/// scans to a number token carrying the run's canonical decimal form, then
/// end of input.
pub proof fn lemma_number_roundtrip(w: Seq<char>)
    requires
        w.len() > 0,
        is_digit_char(w[0]),
        forall|k: int| 0 <= k < w.len() ==> is_number_char(#[trigger] w[k]),
        spec_number_valid(w),
    ensures
        spec_tokenize(w) == Ok::<_, Seq<char>>(
            seq![TokenModel::NumberLiteral(spec_canon_number(w)), TokenModel::Eof],
        ),
{
    lemma_number_run_full(w, 0);
    assert(w.subrange(0, w.len() as int) =~= w);
    assert(lex_step(w, 0) == LexStep::Emit(
        TokenModel::NumberLiteral(spec_canon_number(w)),
        w.len() as int,
    ));
    assert(lex_from(w, w.len() as int) == Ok::<_, Seq<char>>(seq![TokenModel::Eof]));
    assert(seq![TokenModel::NumberLiteral(spec_canon_number(w))] + seq![TokenModel::Eof] =~= seq![
        TokenModel::NumberLiteral(spec_canon_number(w)),
        TokenModel::Eof,
    ]);
}

/// The escape encoding of one payload character.
pub open spec fn spec_encode_char(c: char) -> Seq<char> {
    if c == '\n' {
        seq!['\\', 'n']
    } else if c == '\t' {
        seq!['\\', 't']
    } else if c == '\r' {
        seq!['\\', 'r']
    } else if c == '\\' {
        seq!['\\', '\\']
    } else if c == '"' {
        seq!['\\', '"']
    } else {
        seq![c]
    }
}

/// The escape encoding of a whole string-literal payload.
pub open spec fn spec_encode_string(p: Seq<char>) -> Seq<char>
    decreases p,
{
    if p.len() == 0 {
        Seq::empty()
    } else {
        spec_encode_char(p[0]) + spec_encode_string(p.drop_first())
    }
}

proof fn lemma_read_string_shift(s1: Seq<char>, i1: int, s2: Seq<char>, i2: int)
    requires
        0 <= i1 <= s1.len(),
        0 <= i2 <= s2.len(),
        s1.skip(i1) == s2.skip(i2),
    ensures
        match (spec_read_string(s1, i1), spec_read_string(s2, i2)) {
            (Ok(a), Ok(b)) => a.0 == b.0 && a.1 - i1 == b.1 - i2,
            (Err(m1), Err(m2)) => m1 == m2,
            _ => false,
        },
    decreases s1.len() - i1,
{
    assert(s1.skip(i1).len() == s1.len() - i1);
    assert(s2.skip(i2).len() == s2.len() - i2);
    assert(s1.skip(i1).len() == s2.skip(i2).len());
    if i1 < s1.len() {
        assert(i2 < s2.len());
        assert(s1[i1] == s1.skip(i1)[0]);
        assert(s2[i2] == s2.skip(i2)[0]);
        if s1[i1] == '"' {
        } else if s1[i1] == '\\' {
            if i1 + 1 < s1.len() {
                assert(s1[i1 + 1] == s1.skip(i1)[1]);
                assert(s2[i2 + 1] == s2.skip(i2)[1]);
                match spec_escape_char(s1[i1 + 1]) {
                    Some(_) => {
                        assert forall|k: int|
                            0 <= k < s1.len() - (i1 + 2) implies #[trigger] s1.skip(i1 + 2)[k]
                            == s2.skip(i2 + 2)[k] by {
                            assert(s1.skip(i1 + 2)[k] == s1.skip(i1)[k + 2]);
                            assert(s2.skip(i2 + 2)[k] == s2.skip(i2)[k + 2]);
                        }
                        assert(s1.skip(i1 + 2) =~= s2.skip(i2 + 2));
                        lemma_read_string_shift(s1, i1 + 2, s2, i2 + 2);
                    },
                    None => {},
                }
            }
        } else {
            assert forall|k: int|
                0 <= k < s1.len() - (i1 + 1) implies #[trigger] s1.skip(i1 + 1)[k] == s2.skip(
                i2 + 1,
            )[k] by {
                assert(s1.skip(i1 + 1)[k] == s1.skip(i1)[k + 1]);
                assert(s2.skip(i2 + 1)[k] == s2.skip(i2)[k + 1]);
            }
            assert(s1.skip(i1 + 1) =~= s2.skip(i2 + 1));
            lemma_read_string_shift(s1, i1 + 1, s2, i2 + 1);
        }
    }
}

/// String-literal round trip: reading the escape encoding of a payload up
/// to the closing quote decodes back to exactly the payload.
pub proof fn lemma_string_roundtrip(p: Seq<char>)
    ensures
        spec_read_string(spec_encode_string(p) + seq!['"'], 0) == Ok::<_, Seq<char>>(
            (p, spec_encode_string(p).len() + 1 as int),
        ),
    decreases p,
{
    let b = spec_encode_string(p) + seq!['"'];
    if p.len() == 0 {
        assert(p =~= Seq::<char>::empty());
        assert(b =~= seq!['"']);
        assert(b[0] == '"');
    } else {
        lemma_string_roundtrip(p.drop_first());
        let c = p[0];
        let rest = spec_encode_string(p.drop_first()) + seq!['"'];
        let head_len = spec_encode_char(c).len() as int;
        assert(b =~= spec_encode_char(c) + rest);
        assert(spec_encode_string(p).len() == head_len + spec_encode_string(p.drop_first()).len());
        assert(b.skip(head_len) =~= rest);
        assert(rest.skip(0) =~= rest);
        lemma_read_string_shift(b, head_len, rest, 0);
        if c == '\n' || c == '\t' || c == '\r' || c == '\\' || c == '"' {
            assert(b[0] == '\\');
            assert(b[1] == spec_encode_char(c)[1]);
            assert(spec_escape_char(b[1]) == Some(c));
            match spec_read_string(b, 2) {
                Ok(pj) => {
                    assert(seq![c] + pj.0 =~= p);
                },
                Err(_) => {},
            }
        } else {
            assert(b[0] == c);
            assert(b[0] != '"' && b[0] != '\\');
            match spec_read_string(b, 1) {
                Ok(pj) => {
                    assert(seq![c] + pj.0 =~= p);
                },
                Err(_) => {},
            }
        }
    }
}


/// `p` is the identifier run of `s` that starts at `i`.
pub open spec fn is_ident_run(s: Seq<char>, i: int, p: Seq<char>) -> bool {
    &&& 0 <= i
    &&& i + p.len() <= s.len()
    &&& p.len() > 0
    &&& p == s.subrange(i, i + p.len() as int)
    &&& is_ident_start_char(p[0])
    &&& forall|k: int| 0 <= k < p.len() ==> is_ident_char(#[trigger] p[k])
}

/// `w` is the well-formed number run of `s` that starts at `i`.
pub open spec fn is_number_run(s: Seq<char>, i: int, w: Seq<char>) -> bool {
    &&& 0 <= i
    &&& i + w.len() <= s.len()
    &&& w.len() > 0
    &&& w == s.subrange(i, i + w.len() as int)
    &&& is_digit_char(w[0])
    &&& (forall|k: int| 0 <= k < w.len() ==> is_number_char(#[trigger] w[k]))
    &&& spec_number_valid(w)
}

/// A token's payload re-encodes to the lexeme it was scanned from: an
/// identifier payload is a source run verbatim and no reserved word, a
/// number payload is the canonical decimal form of a source run, and a
/// string payload is the decoding of a literal body somewhere in the
/// buffer. Tokens without payloads satisfy this trivially.
pub open spec fn scanned_payload_ok(s: Seq<char>, t: TokenModel) -> bool {
    match t {
        TokenModel::Identifier(p) => !crate::token::is_reserved_word(p) && (exists|i: int|
            #[trigger] is_ident_run(s, i, p)),
        TokenModel::NumberLiteral(p) => exists|i: int, w: Seq<char>|
            #[trigger] is_number_run(s, i, w) && p == spec_canon_number(w),
        TokenModel::StringLiteral(p) => exists|i: int|
            0 <= i && ((#[trigger] spec_read_string(s, i)) matches Ok(pj) && pj.0 == p),
        _ => true,
    }
}

proof fn lemma_ident_run_chars(s: Seq<char>, i: int)
    requires
        0 <= i <= s.len(),
    ensures
        forall|k: int| i <= k < ident_end(s, i) ==> is_ident_char(#[trigger] s[k]),
    decreases s.len() - i,
{
    if i < s.len() && is_ident_char(s[i]) {
        lemma_ident_run_chars(s, i + 1);
        assert forall|k: int| i <= k < ident_end(s, i) implies is_ident_char(#[trigger] s[k]) by {
            if k > i {
                assert(is_ident_char(s[k]));
            }
        }
    }
}

proof fn lemma_number_run_chars(s: Seq<char>, i: int)
    requires
        0 <= i <= s.len(),
    ensures
        forall|k: int| i <= k < number_end(s, i) ==> is_number_char(#[trigger] s[k]),
    decreases s.len() - i,
{
    if i < s.len() && is_number_char(s[i]) {
        lemma_number_run_chars(s, i + 1);
        assert forall|k: int| i <= k < number_end(s, i) implies is_number_char(
            #[trigger] s[k],
        ) by {
            if k > i {
                assert(is_number_char(s[k]));
            }
        }
    }
}

proof fn lemma_lex_from_payloads(s: Seq<char>, i: int)
    requires
        0 <= i,
    ensures
        lex_from(s, i) matches Ok(toks) ==> forall|k: int|
            0 <= k < toks.len() ==> scanned_payload_ok(s, #[trigger] toks[k]),
    decreases s.len() - i,
{
    if i >= s.len() {
    } else {
        match lex_step(s, i) {
            LexStep::Emit(t, j) => {
                if i < j && j <= s.len() {
                    lemma_lex_from_payloads(s, j);
                    let c = s[i];
                    if is_space_char(c) || c == '\n' || (c == '/' && i + 1 < s.len() && s[i + 1]
                        == '/') {
                    } else if c == '"' {
                        match spec_read_string(s, i + 1) {
                            Ok(pj) => {
                                assert((spec_read_string(s, i + 1)) matches Ok(q) && q.0 == pj.0);
                            },
                            Err(_) => {},
                        }
                    } else if is_digit_char(c) {
                        let e = number_end(s, i);
                        lemma_number_end_bounds(s, i);
                        lemma_number_run_chars(s, i);
                        let w = s.subrange(i, e);
                        if spec_number_valid(w) {
                            assert(w.len() == e - i);
                            assert forall|k: int| 0 <= k < w.len() implies is_number_char(
                                #[trigger] w[k],
                            ) by {
                                assert(w[k] == s[i + k]);
                            }
                            assert(is_number_run(s, i, w));
                        }
                    } else if is_ident_start_char(c) {
                        let e = ident_end(s, i);
                        lemma_ident_end_bounds(s, i);
                        lemma_ident_run_chars(s, i);
                        let w = s.subrange(i, e);
                        crate::token::lemma_keyword_coverage(w);
                        match spec_keyword_or_identifier(w) {
                            TokenModel::Identifier(p) => {
                                assert(w.len() == e - i);
                                assert forall|k: int| 0 <= k < w.len() implies is_ident_char(
                                    #[trigger] w[k],
                                ) by {
                                    assert(w[k] == s[i + k]);
                                }
                                assert(w[0] == s[i]);
                                assert(is_ident_run(s, i, p));
                            },
                            _ => {},
                        }
                    }
                    assert(scanned_payload_ok(s, t));
                    match lex_from(s, j) {
                        Ok(rest) => {
                            let toks = seq![t] + rest;
                            assert forall|k: int|
                                0 <= k < toks.len() implies scanned_payload_ok(
                                s,
                                #[trigger] toks[k],
                            ) by {
                                if k == 0 {
                                    assert(toks[0] == t);
                                } else {
                                    assert(toks[k] == rest[k - 1]);
                                }
                            }
                        },
                        Err(_) => {},
                    }
                }
            },
            LexStep::Skip(j) => {
                if i < j && j <= s.len() {
                    lemma_lex_from_payloads(s, j);
                }
            },
            LexStep::Fail(_) => {},
        }
    }
}

/// Whole-scan payload round trip: in every successful scan, every token's
/// payload re-encodes to the source lexeme it was scanned from, as
/// [`scanned_payload_ok`] states — identifiers verbatim, numbers in
/// canonical decimal form, string payloads as the decoding of their
/// literal body.
pub proof fn lemma_scan_payload_roundtrip(s: Seq<char>)
    ensures
        spec_tokenize(s) matches Ok(toks) ==> forall|k: int|
            0 <= k < toks.len() ==> scanned_payload_ok(s, #[trigger] toks[k]),
{
    if s.len() > 0 {
        lemma_lex_from_payloads(s, 0);
    }
}

} // verus!
