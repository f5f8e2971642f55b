//! The scanner: a lazy, forward-only tokenizer over raw source bytes.
//!
//! Each call of `scan_token` skips whitespace and `//` comments, then
//! returns the next token with the exact source bytes it spans as its
//! lexeme and the 1-based line it ends on. Errors are reported in-band: an
//! `Error` token carries a diagnostic message as its lexeme. After the end
//! of the source every call returns `Eof`.

use vstd::prelude::*;
use vstd::string::StrSliceExecFns;
use vstd::string::StringSliceAdditionalSpecFns;

use crate::number::is_number_lexeme;

verus! {

#[derive(Clone, Copy, Debug, PartialEq, Eq, Structural)]
pub enum TokenType {
    LeftParen,
    RightParen,
    LeftBrace,
    RightBrace,
    Comma,
    Dot,
    Minus,
    Plus,
    Semicolon,
    Slash,
    Star,
    Bang,
    BangEqual,
    Equal,
    EqualEqual,
    Greater,
    GreaterEqual,
    Less,
    LessEqual,
    Identifier,
    Str,
    Number,
    And,
    Class,
    Else,
    False,
    For,
    Fun,
    If,
    Nil,
    Or,
    Print,
    Return,
    Super,
    This,
    True,
    Var,
    While,
    Error,
    Eof,
}

pub struct Token {
    pub token_type: TokenType,
    pub lexeme: Vec<u8>,
    pub line: usize,
}

impl Token {
    /// The placeholder a parser starts from, before any token was scanned.
    pub fn none() -> (t: Token)
        ensures
            t.token_type == TokenType::Error,
            t.lexeme@.len() == 0,
    {
        Token { token_type: TokenType::Error, lexeme: Vec::new(), line: 0 }
    }
}

/// Copies a byte vector; used to hand a token's lexeme on into a
/// diagnostic while the token stays where it is.
pub fn clone_bytes(v: &Vec<u8>) -> (r: Vec<u8>)
    ensures
        r@ == v@,
{
    let mut r: Vec<u8> = Vec::new();
    let mut i: usize = 0;
    while i < v.len()
        invariant
            i <= v@.len(),
            r@ == v@.subrange(0, i as int),
        decreases v@.len() - i,
    {
        r.push(v[i]);
        assert(r@ =~= v@.subrange(0, i + 1));
        i = i + 1;
    }
    assert(r@ =~= v@);
    r
}

/// The keyword category of a lexeme, or `Identifier` if it is none of the
/// fixed reserved words.
pub open spec fn spec_keyword_type(s: Seq<u8>) -> TokenType {
    if s == "and".spec_bytes() {
        TokenType::And
    } else if s == "class".spec_bytes() {
        TokenType::Class
    } else if s == "else".spec_bytes() {
        TokenType::Else
    } else if s == "false".spec_bytes() {
        TokenType::False
    } else if s == "for".spec_bytes() {
        TokenType::For
    } else if s == "fun".spec_bytes() {
        TokenType::Fun
    } else if s == "if".spec_bytes() {
        TokenType::If
    } else if s == "nil".spec_bytes() {
        TokenType::Nil
    } else if s == "or".spec_bytes() {
        TokenType::Or
    } else if s == "print".spec_bytes() {
        TokenType::Print
    } else if s == "return".spec_bytes() {
        TokenType::Return
    } else if s == "super".spec_bytes() {
        TokenType::Super
    } else if s == "this".spec_bytes() {
        TokenType::This
    } else if s == "true".spec_bytes() {
        TokenType::True
    } else if s == "var".spec_bytes() {
        TokenType::Var
    } else if s == "while".spec_bytes() {
        TokenType::While
    } else {
        TokenType::Identifier
    }
}

pub open spec fn is_alpha(c: u8) -> bool {
    97 <= c <= 122 || 65 <= c <= 90 || c == 95
}

/// A letter or underscore, then letters, digits and underscores.
pub open spec fn is_identifier_lexeme(s: Seq<u8>) -> bool {
    &&& s.len() > 0
    &&& is_alpha(s[0])
    &&& forall|i: int| 0 <= i < s.len() ==> is_alpha(#[trigger] s[i]) || crate::number::is_digit(s[i])
}

/// A quote, no quote in between, a quote.
pub open spec fn is_string_lexeme(s: Seq<u8>) -> bool {
    &&& s.len() >= 2
    &&& s[0] == 34
    &&& s.last() == 34
    &&& forall|i: int| 0 < i < s.len() - 1 ==> #[trigger] s[i] != 34
}

/// What the lexeme of each token category looks like: the exact operator
/// or punctuation bytes, a keyword's exact word, the shapes of numbers,
/// identifiers and strings, a diagnostic message for an error, nothing at
/// the end of input.
pub open spec fn lexeme_fits(t: TokenType, lex: Seq<u8>) -> bool {
    match t {
        TokenType::LeftParen => lex.len() == 1 && lex[0] == 40,
        TokenType::RightParen => lex.len() == 1 && lex[0] == 41,
        TokenType::LeftBrace => lex.len() == 1 && lex[0] == 123,
        TokenType::RightBrace => lex.len() == 1 && lex[0] == 125,
        TokenType::Comma => lex.len() == 1 && lex[0] == 44,
        TokenType::Dot => lex.len() == 1 && lex[0] == 46,
        TokenType::Minus => lex.len() == 1 && lex[0] == 45,
        TokenType::Plus => lex.len() == 1 && lex[0] == 43,
        TokenType::Semicolon => lex.len() == 1 && lex[0] == 59,
        TokenType::Slash => lex.len() == 1 && lex[0] == 47,
        TokenType::Star => lex.len() == 1 && lex[0] == 42,
        TokenType::Bang => lex.len() == 1 && lex[0] == 33,
        TokenType::BangEqual => lex.len() == 2 && lex[0] == 33 && lex[1] == 61,
        TokenType::Equal => lex.len() == 1 && lex[0] == 61,
        TokenType::EqualEqual => lex.len() == 2 && lex[0] == 61 && lex[1] == 61,
        TokenType::Greater => lex.len() == 1 && lex[0] == 62,
        TokenType::GreaterEqual => lex.len() == 2 && lex[0] == 62 && lex[1] == 61,
        TokenType::Less => lex.len() == 1 && lex[0] == 60,
        TokenType::LessEqual => lex.len() == 2 && lex[0] == 60 && lex[1] == 61,
        TokenType::Identifier => is_identifier_lexeme(lex) && spec_keyword_type(lex)
            == TokenType::Identifier,
        TokenType::Str => is_string_lexeme(lex),
        TokenType::Number => is_number_lexeme(lex),
        TokenType::And => is_identifier_lexeme(lex) && spec_keyword_type(lex) == TokenType::And,
        TokenType::Class => is_identifier_lexeme(lex) && spec_keyword_type(lex)
            == TokenType::Class,
        TokenType::Else => is_identifier_lexeme(lex) && spec_keyword_type(lex) == TokenType::Else,
        TokenType::False => is_identifier_lexeme(lex) && spec_keyword_type(lex)
            == TokenType::False,
        TokenType::For => is_identifier_lexeme(lex) && spec_keyword_type(lex) == TokenType::For,
        TokenType::Fun => is_identifier_lexeme(lex) && spec_keyword_type(lex) == TokenType::Fun,
        TokenType::If => is_identifier_lexeme(lex) && spec_keyword_type(lex) == TokenType::If,
        TokenType::Nil => is_identifier_lexeme(lex) && spec_keyword_type(lex) == TokenType::Nil,
        TokenType::Or => is_identifier_lexeme(lex) && spec_keyword_type(lex) == TokenType::Or,
        TokenType::Print => is_identifier_lexeme(lex) && spec_keyword_type(lex)
            == TokenType::Print,
        TokenType::Return => is_identifier_lexeme(lex) && spec_keyword_type(lex)
            == TokenType::Return,
        TokenType::Super => is_identifier_lexeme(lex) && spec_keyword_type(lex)
            == TokenType::Super,
        TokenType::This => is_identifier_lexeme(lex) && spec_keyword_type(lex) == TokenType::This,
        TokenType::True => is_identifier_lexeme(lex) && spec_keyword_type(lex) == TokenType::True,
        TokenType::Var => is_identifier_lexeme(lex) && spec_keyword_type(lex) == TokenType::Var,
        TokenType::While => is_identifier_lexeme(lex) && spec_keyword_type(lex)
            == TokenType::While,
        TokenType::Error => lex == "Unexpected character.".spec_bytes() || lex
            == "Unterminated string.".spec_bytes(),
        TokenType::Eof => lex.len() == 0,
    }
}

/// Whether a lexeme equals the bytes of a given word.
fn lexeme_is(lex: &Vec<u8>, word: &str) -> (r: bool)
    ensures
        r == (lex@ == word.spec_bytes()),
{
    let b = word.as_bytes();
    if lex.len() != b.len() {
        proof {
            assert(lex@.len() != word.spec_bytes().len());
        }
        return false;
    }
    let mut i: usize = 0;
    while i < b.len()
        invariant
            i <= b@.len(),
            lex@.len() == b@.len(),
            b@ == word.spec_bytes(),
            forall|j: int| 0 <= j < i ==> lex@[j] == b@[j],
        decreases b@.len() - i,
    {
        if lex[i] != b[i] {
            return false;
        }
        i = i + 1;
    }
    proof {
        assert(lex@ =~= b@);
    }
    true
}

fn keyword_type(lex: &Vec<u8>) -> (t: TokenType)
    ensures
        t == spec_keyword_type(lex@),
{
    if lexeme_is(lex, "and") {
        TokenType::And
    } else if lexeme_is(lex, "class") {
        TokenType::Class
    } else if lexeme_is(lex, "else") {
        TokenType::Else
    } else if lexeme_is(lex, "false") {
        TokenType::False
    } else if lexeme_is(lex, "for") {
        TokenType::For
    } else if lexeme_is(lex, "fun") {
        TokenType::Fun
    } else if lexeme_is(lex, "if") {
        TokenType::If
    } else if lexeme_is(lex, "nil") {
        TokenType::Nil
    } else if lexeme_is(lex, "or") {
        TokenType::Or
    } else if lexeme_is(lex, "print") {
        TokenType::Print
    } else if lexeme_is(lex, "return") {
        TokenType::Return
    } else if lexeme_is(lex, "super") {
        TokenType::Super
    } else if lexeme_is(lex, "this") {
        TokenType::This
    } else if lexeme_is(lex, "true") {
        TokenType::True
    } else if lexeme_is(lex, "var") {
        TokenType::Var
    } else if lexeme_is(lex, "while") {
        TokenType::While
    } else {
        TokenType::Identifier
    }
}

/// Where scanning resumes: from position `i` on line `line`, past spaces,
/// tabs, carriage returns, newlines and `//` comments, to the first byte
/// of the next token (or the end of the source), counting the lines
/// passed over. `in_comment` carries the walk through a comment's bytes.
pub open spec fn spec_skip(src: Seq<u8>, i: int, line: int, in_comment: bool) -> (int, int)
    decreases src.len() - i,
{
    if !(0 <= i < src.len()) {
        (i, line)
    } else if in_comment {
        if src[i] == 10 {
            spec_skip(src, i + 1, line + 1, false)
        } else {
            spec_skip(src, i + 1, line, true)
        }
    } else {
        let c = src[i];
        if c == 32 || c == 13 || c == 9 {
            spec_skip(src, i + 1, line, false)
        } else if c == 10 {
            spec_skip(src, i + 1, line + 1, false)
        } else if c == 47 && i + 1 < src.len() && src[i + 1] == 47 {
            spec_skip(src, i + 2, line, true)
        } else {
            (i, line)
        }
    }
}

/// The bytes a token can begin with.
pub open spec fn spec_token_start(c: u8) -> bool {
    ||| crate::number::is_digit(c)
    ||| is_alpha(c)
    ||| c == 40
    ||| c == 41
    ||| c == 123
    ||| c == 125
    ||| c == 59
    ||| c == 44
    ||| c == 46
    ||| c == 45
    ||| c == 43
    ||| c == 47
    ||| c == 42
    ||| c == 33
    ||| c == 61
    ||| c == 60
    ||| c == 62
    ||| c == 34
}

/// The token categories whose lexeme is a word: a plain identifier or a
/// reserved one.
pub open spec fn is_word_token(t: TokenType) -> bool {
    ||| t == TokenType::Identifier
    ||| t == TokenType::And
    ||| t == TokenType::Class
    ||| t == TokenType::Else
    ||| t == TokenType::False
    ||| t == TokenType::For
    ||| t == TokenType::Fun
    ||| t == TokenType::If
    ||| t == TokenType::Nil
    ||| t == TokenType::Or
    ||| t == TokenType::Print
    ||| t == TokenType::Return
    ||| t == TokenType::Super
    ||| t == TokenType::This
    ||| t == TokenType::True
    ||| t == TokenType::Var
    ||| t == TokenType::While
}

/// The first position at or after `i` that is not a digit.
pub open spec fn spec_digits_end(src: Seq<u8>, i: int) -> int
    decreases src.len() - i,
{
    if 0 <= i < src.len() && crate::number::is_digit(src[i]) {
        spec_digits_end(src, i + 1)
    } else {
        i
    }
}

/// The first position at or after `i` that is not a letter, digit or
/// underscore.
pub open spec fn spec_word_end(src: Seq<u8>, i: int) -> int
    decreases src.len() - i,
{
    if 0 <= i < src.len() && (is_alpha(src[i]) || crate::number::is_digit(src[i])) {
        spec_word_end(src, i + 1)
    } else {
        i
    }
}

/// Walks a string literal's interior from `i`: whether a closing quote
/// comes, the position just past where the walk stops, and the line after
/// the newlines passed over.
pub open spec fn spec_string_end(src: Seq<u8>, i: int, line: int) -> (bool, int, int)
    decreases src.len() - i,
{
    if !(0 <= i < src.len()) {
        (false, i, line)
    } else if src[i] == 34 {
        (true, i + 1, line)
    } else if src[i] == 10 {
        spec_string_end(src, i + 1, line + 1)
    } else {
        spec_string_end(src, i + 1, line)
    }
}

/// The scanner as a function: the token scanned from position `pos` on
/// line `line` — its category, its lexeme, and the position and line the
/// scanner stands on afterwards. `scan_token` is proved to return exactly
/// this.
pub open spec fn spec_scan_token(src: Seq<u8>, pos: int, line: int) -> (
    TokenType,
    Seq<u8>,
    int,
    int,
) {
    let skip = spec_skip(src, pos, line, false);
    let s = skip.0;
    let l = skip.1;
    if !(s < src.len()) {
        (TokenType::Eof, Seq::empty(), s, l)
    } else {
        let c = src[s];
        if crate::number::is_digit(c) {
            let d1 = spec_digits_end(src, s + 1);
            let end = if d1 + 1 < src.len() && src[d1] == 46 && crate::number::is_digit(
                src[d1 + 1],
            ) {
                spec_digits_end(src, d1 + 2)
            } else {
                d1
            };
            (TokenType::Number, src.subrange(s, end), end, l)
        } else if is_alpha(c) {
            let e = spec_word_end(src, s + 1);
            (spec_keyword_type(src.subrange(s, e)), src.subrange(s, e), e, l)
        } else if c == 40 {
            (TokenType::LeftParen, src.subrange(s, s + 1), s + 1, l)
        } else if c == 41 {
            (TokenType::RightParen, src.subrange(s, s + 1), s + 1, l)
        } else if c == 123 {
            (TokenType::LeftBrace, src.subrange(s, s + 1), s + 1, l)
        } else if c == 125 {
            (TokenType::RightBrace, src.subrange(s, s + 1), s + 1, l)
        } else if c == 59 {
            (TokenType::Semicolon, src.subrange(s, s + 1), s + 1, l)
        } else if c == 44 {
            (TokenType::Comma, src.subrange(s, s + 1), s + 1, l)
        } else if c == 46 {
            (TokenType::Dot, src.subrange(s, s + 1), s + 1, l)
        } else if c == 45 {
            (TokenType::Minus, src.subrange(s, s + 1), s + 1, l)
        } else if c == 43 {
            (TokenType::Plus, src.subrange(s, s + 1), s + 1, l)
        } else if c == 47 {
            (TokenType::Slash, src.subrange(s, s + 1), s + 1, l)
        } else if c == 42 {
            (TokenType::Star, src.subrange(s, s + 1), s + 1, l)
        } else if c == 33 {
            if s + 1 < src.len() && src[s + 1] == 61 {
                (TokenType::BangEqual, src.subrange(s, s + 2), s + 2, l)
            } else {
                (TokenType::Bang, src.subrange(s, s + 1), s + 1, l)
            }
        } else if c == 61 {
            if s + 1 < src.len() && src[s + 1] == 61 {
                (TokenType::EqualEqual, src.subrange(s, s + 2), s + 2, l)
            } else {
                (TokenType::Equal, src.subrange(s, s + 1), s + 1, l)
            }
        } else if c == 60 {
            if s + 1 < src.len() && src[s + 1] == 61 {
                (TokenType::LessEqual, src.subrange(s, s + 2), s + 2, l)
            } else {
                (TokenType::Less, src.subrange(s, s + 1), s + 1, l)
            }
        } else if c == 62 {
            if s + 1 < src.len() && src[s + 1] == 61 {
                (TokenType::GreaterEqual, src.subrange(s, s + 2), s + 2, l)
            } else {
                (TokenType::Greater, src.subrange(s, s + 1), s + 1, l)
            }
        } else if c == 34 {
            let r = spec_string_end(src, s + 1, l);
            if r.0 {
                (TokenType::Str, src.subrange(s, r.1), r.1, r.2)
            } else {
                (TokenType::Error, "Unterminated string.".spec_bytes(), r.1, r.2)
            }
        } else {
            (TokenType::Error, "Unexpected character.".spec_bytes(), s + 1, l)
        }
    }
}

/// The skip walk stays inside the source and never goes backwards.
pub proof fn lemma_spec_skip_bounds(src: Seq<u8>, i: int, line: int, in_comment: bool)
    requires
        0 <= i <= src.len(),
    ensures
        i <= spec_skip(src, i, line, in_comment).0 <= src.len(),
    decreases src.len() - i,
{
    if 0 <= i < src.len() {
        if in_comment {
            if src[i] == 10 {
                lemma_spec_skip_bounds(src, i + 1, line + 1, false);
            } else {
                lemma_spec_skip_bounds(src, i + 1, line, true);
            }
        } else {
            let c = src[i];
            if c == 32 || c == 13 || c == 9 {
                lemma_spec_skip_bounds(src, i + 1, line, false);
            } else if c == 10 {
                lemma_spec_skip_bounds(src, i + 1, line + 1, false);
            } else if c == 47 && i + 1 < src.len() && src[i + 1] == 47 {
                lemma_spec_skip_bounds(src, i + 2, line, true);
            }
        }
    }
}

/// The digit walk stays inside the source and never goes backwards.
pub proof fn lemma_spec_digits_end_bounds(src: Seq<u8>, i: int)
    requires
        0 <= i <= src.len(),
    ensures
        i <= spec_digits_end(src, i) <= src.len(),
    decreases src.len() - i,
{
    if 0 <= i < src.len() && crate::number::is_digit(src[i]) {
        lemma_spec_digits_end_bounds(src, i + 1);
    }
}

/// The word walk stays inside the source and never goes backwards.
pub proof fn lemma_spec_word_end_bounds(src: Seq<u8>, i: int)
    requires
        0 <= i <= src.len(),
    ensures
        i <= spec_word_end(src, i) <= src.len(),
    decreases src.len() - i,
{
    if 0 <= i < src.len() && (is_alpha(src[i]) || crate::number::is_digit(src[i])) {
        lemma_spec_word_end_bounds(src, i + 1);
    }
}

/// The string walk stays inside the source and never goes backwards.
pub proof fn lemma_spec_string_end_bounds(src: Seq<u8>, i: int, line: int)
    requires
        0 <= i <= src.len(),
    ensures
        i <= spec_string_end(src, i, line).1 <= src.len(),
    decreases src.len() - i,
{
    if 0 <= i < src.len() && src[i] != 34 {
        if src[i] == 10 {
            lemma_spec_string_end_bounds(src, i + 1, line + 1);
        } else {
            lemma_spec_string_end_bounds(src, i + 1, line);
        }
    }
}

/// The scanner as a function makes progress: from inside the source, a
/// token that is not the end consumes at least one byte, and the end comes
/// exactly at the end.
pub proof fn lemma_spec_scan_progress(src: Seq<u8>, pos: int, line: int)
    requires
        0 <= pos <= src.len(),
    ensures
        ({
            let n = spec_scan_token(src, pos, line);
            &&& pos <= n.2 <= src.len()
            &&& (n.0 == TokenType::Eof ==> n.2 == src.len())
            &&& (n.0 != TokenType::Eof ==> n.2 > pos)
        }),
{
    lemma_spec_skip_bounds(src, pos, line, false);
    let n = spec_scan_token(src, pos, line);
    let skip = spec_skip(src, pos, line, false);
    let s = skip.0;
    if s < src.len() {
        let c = src[s];
        if crate::number::is_digit(c) {
            lemma_spec_digits_end_bounds(src, s + 1);
            let d1 = spec_digits_end(src, s + 1);
            assert(s + 1 <= d1 <= src.len());
            if d1 + 1 < src.len() && src[d1] == 46 && crate::number::is_digit(src[d1 + 1]) {
                lemma_spec_digits_end_bounds(src, d1 + 2);
                assert(n.2 == spec_digits_end(src, d1 + 2));
            } else {
                assert(n.2 == d1);
            }
        } else if is_alpha(c) {
            lemma_spec_word_end_bounds(src, s + 1);
            let e = spec_word_end(src, s + 1);
            assert(spec_keyword_type(src.subrange(s, e)) != TokenType::Eof);
        } else if c == 34 {
            lemma_spec_string_end_bounds(src, s + 1, skip.1);
            let r = spec_string_end(src, s + 1, skip.1);
            assert(n.2 == r.1);
        } else {
            // operators, punctuation and the unexpected byte: one or two bytes
            assert(n.2 == s + 1 || n.2 == s + 2);
        }
    }
}

/// A run of digits bounded by a non-digit ends the digit walk there.
proof fn lemma_digits_end_is(src: Seq<u8>, a: int, b: int)
    requires
        0 <= a <= b <= src.len(),
        forall|j: int| a <= j < b ==> crate::number::is_digit(#[trigger] src[j]),
        b == src.len() || !crate::number::is_digit(src[b]),
    ensures
        spec_digits_end(src, a) == b,
    decreases b - a,
{
    if a < b {
        lemma_digits_end_is(src, a + 1, b);
    }
}

/// A run of word characters bounded by a non-word byte ends the word walk
/// there.
proof fn lemma_word_end_is(src: Seq<u8>, a: int, b: int)
    requires
        0 <= a <= b <= src.len(),
        forall|j: int|
            a <= j < b ==> is_alpha(#[trigger] src[j]) || crate::number::is_digit(src[j]),
        b == src.len() || !(is_alpha(src[b]) || crate::number::is_digit(src[b])),
    ensures
        spec_word_end(src, a) == b,
    decreases b - a,
{
    if a < b {
        lemma_word_end_is(src, a + 1, b);
    }
}

pub struct Scanner {
    pub source: Vec<u8>,
    pub current: usize,
    pub line: usize,
}

impl Scanner {
    /// The cursor stays inside the source, and the line count, starting at
    /// one, grows by at most one per byte consumed.
    pub open spec fn wf(self) -> bool {
        &&& self.source@.len() < usize::MAX
        &&& self.current <= self.source@.len()
        &&& 1 <= self.line
        &&& self.line <= self.current + 1
    }

    pub fn new(source: Vec<u8>) -> (s: Scanner)
        requires
            source@.len() < usize::MAX,
        ensures
            s.source@ == source@,
            s.current == 0,
            s.line == 1,
            s.wf(),
    {
        Scanner { source, current: 0, line: 1 }
    }

    /// A token whose lexeme is the source span from `start` to the cursor.
    fn token_here(&self, token_type: TokenType, start: usize) -> (t: Token)
        requires
            self.wf(),
            start <= self.current,
        ensures
            t.token_type == token_type,
            t.lexeme@ == self.source@.subrange(start as int, self.current as int),
            t.line == self.line,
    {
        let mut lexeme: Vec<u8> = Vec::new();
        let mut i: usize = start;
        while i < self.current
            invariant
                start <= i <= self.current,
                self.current <= self.source@.len(),
                lexeme@ == self.source@.subrange(start as int, i as int),
            decreases self.current - i,
        {
            lexeme.push(self.source[i]);
            assert(lexeme@ =~= self.source@.subrange(start as int, i + 1));
            i = i + 1;
        }
        Token { token_type, lexeme, line: self.line }
    }

    /// A token carrying a diagnostic message instead of source text.
    fn error_token(&self, message: &str) -> (t: Token)
        ensures
            t.token_type == TokenType::Error,
            t.lexeme@ == message.spec_bytes(),
            t.line == self.line,
    {
        Token { token_type: TokenType::Error, lexeme: message.as_bytes_vec(), line: self.line }
    }

    /// Skips spaces, tabs, carriage returns, newlines and `//` comments,
    /// counting the lines passed over: exactly the walk of `spec_skip`.
    fn skip_whitespace(&mut self)
        requires
            old(self).wf(),
        ensures
            final(self).wf(),
            final(self).source == old(self).source,
            final(self).current >= old(self).current,
            final(self).line >= old(self).line,
            (final(self).current as int, final(self).line as int) == spec_skip(
                old(self).source@,
                old(self).current as int,
                old(self).line as int,
                false,
            ),
    {
        let ghost src = self.source@;
        let ghost target = spec_skip(src, self.current as int, self.line as int, false);
        while self.current < self.source.len()
            invariant
                self.wf(),
                self.source == old(self).source,
                self.source@ == src,
                self.current >= old(self).current,
                self.line >= old(self).line,
                target == spec_skip(src, self.current as int, self.line as int, false),
                target == spec_skip(
                    old(self).source@,
                    old(self).current as int,
                    old(self).line as int,
                    false,
                ),
            decreases self.source@.len() - self.current,
        {
            let c = self.source[self.current];
            if c == 32 || c == 13 || c == 9 {
                // space, carriage return, tab
                self.current = self.current + 1;
            } else if c == 10 {
                // newline
                self.current = self.current + 1;
                self.line = self.line + 1;
            } else if c == 47 && self.current + 1 < self.source.len() && self.source[self.current
                + 1] == 47 {
                // a "//" comment runs to the end of the line
                let ghost before_comment = self.current;
                self.current = self.current + 2;
                while self.current < self.source.len() && self.source[self.current] != 10
                    invariant
                        self.wf(),
                        self.source == old(self).source,
                        self.source@ == src,
                        self.current >= old(self).current,
                        self.current > before_comment,
                        self.line >= old(self).line,
                        target == spec_skip(src, self.current as int, self.line as int, true),
                    decreases self.source@.len() - self.current,
                {
                    self.current = self.current + 1;
                }
                proof {
                    // leaving the comment: at a newline both walks take the
                    // same step, and at the end of the source both stop
                    assert(spec_skip(src, self.current as int, self.line as int, true)
                        == spec_skip(src, self.current as int, self.line as int, false));
                }
            } else {
                return ;
            }
        }
    }

    fn is_digit_byte(c: u8) -> (r: bool)
        ensures
            r == crate::number::is_digit(c),
    {
        48 <= c && c <= 57
    }

    fn is_alpha_byte(c: u8) -> (r: bool)
        ensures
            r == (97 <= c <= 122 || 65 <= c <= 90 || c == 95),
    {
        (97 <= c && c <= 122) || (65 <= c && c <= 90) || c == 95
    }

    /// Scans and returns the next token. The contract pins the token down:
    /// it starts exactly where `spec_skip` stops, its lexeme is the source
    /// text it consumed and fits its category, it is as long as it can be
    /// (so `==` is never two `=`), an error token is only handed out where
    /// no token can start or a string never closes, and `Eof` comes exactly
    /// at the end of the source, so it repeats forever afterwards.
    pub fn scan_token(&mut self) -> (t: Token)
        requires
            old(self).wf(),
        ensures
            final(self).wf(),
            final(self).source == old(self).source,
            final(self).current >= old(self).current,
            final(self).line >= old(self).line,
            t.line == final(self).line,
            t.token_type != TokenType::Eof ==> final(self).current > old(self).current,
            t.token_type == TokenType::Eof ==> final(self).current == final(self).source@.len()
                && t.lexeme@.len() == 0,
            t.token_type == TokenType::Number ==> is_number_lexeme(t.lexeme@),
            t.token_type == TokenType::Error ==> t.lexeme@ == "Unexpected character.".spec_bytes()
                || t.lexeme@ == "Unterminated string.".spec_bytes(),
            lexeme_fits(t.token_type, t.lexeme@),
            t.token_type != TokenType::Error ==> t.lexeme@ == final(self).source@.subrange(
                final(self).current - t.lexeme@.len(),
                final(self).current as int,
            ),
            ({
                let skip = spec_skip(
                    old(self).source@,
                    old(self).current as int,
                    old(self).line as int,
                    false,
                );
                &&& (t.token_type == TokenType::Eof <==> skip.0 == old(self).source@.len())
                &&& (t.token_type != TokenType::Eof && t.token_type != TokenType::Error
                    ==> final(self).current == skip.0 + t.lexeme@.len())
                &&& (t.token_type != TokenType::Str && t.token_type != TokenType::Error
                    ==> final(self).line == skip.1)
            }),
            t.token_type == TokenType::Error ==> ({
                // an error token is earned: either no token can start at
                // the byte the scanner stopped on, or an opening quote is
                // never answered
                let skip = spec_skip(
                    old(self).source@,
                    old(self).current as int,
                    old(self).line as int,
                    false,
                );
                let src = old(self).source@;
                &&& skip.0 < src.len()
                &&& (src[skip.0] != 34 ==> !spec_token_start(src[skip.0]))
                &&& (src[skip.0] == 34 ==> final(self).current == src.len() && (forall|j: int|
                    skip.0 < j < src.len() ==> src[j] != 34))
            }),
            (t.token_type, t.lexeme@, final(self).current as int, final(self).line as int)
                == spec_scan_token(
                old(self).source@,
                old(self).current as int,
                old(self).line as int,
            ),
            ({
                // maximal munch: the token could not have been any longer
                let src = old(self).source@;
                let end = final(self).current as int;
                &&& (t.token_type == TokenType::Number ==> (end == src.len()
                    || !crate::number::is_digit(src[end])) && (crate::number::all_digits(t.lexeme@)
                    ==> !(end + 1 < src.len() && src[end] == 46 && crate::number::is_digit(
                    src[end + 1],
                ))))
                &&& (is_word_token(t.token_type) ==> end == src.len() || !(is_alpha(src[end])
                    || crate::number::is_digit(src[end])))
                &&& ((t.token_type == TokenType::Bang || t.token_type == TokenType::Equal
                    || t.token_type == TokenType::Greater || t.token_type == TokenType::Less) ==> !(
                end < src.len() && src[end] == 61))
            }),
    {
        self.skip_whitespace();
        let start = self.current;
        if self.current >= self.source.len() {
            let t = Token { token_type: TokenType::Eof, lexeme: Vec::new(), line: self.line };
            proof {
                assert(t.lexeme@ =~= self.source@.subrange(
                    self.current - t.lexeme@.len(),
                    self.current as int,
                ));
            }
            return t;
        }
        let c = self.source[self.current];
        self.current = self.current + 1;
        if Self::is_digit_byte(c) {
            return self.number_token(start);
        }
        if Self::is_alpha_byte(c) {
            return self.identifier_token(start);
        }
        if c == 40 {
            return self.token_here(TokenType::LeftParen, start);
        }
        if c == 41 {
            return self.token_here(TokenType::RightParen, start);
        }
        if c == 123 {
            return self.token_here(TokenType::LeftBrace, start);
        }
        if c == 125 {
            return self.token_here(TokenType::RightBrace, start);
        }
        if c == 59 {
            return self.token_here(TokenType::Semicolon, start);
        }
        if c == 44 {
            return self.token_here(TokenType::Comma, start);
        }
        if c == 46 {
            return self.token_here(TokenType::Dot, start);
        }
        if c == 45 {
            return self.token_here(TokenType::Minus, start);
        }
        if c == 43 {
            return self.token_here(TokenType::Plus, start);
        }
        if c == 47 {
            return self.token_here(TokenType::Slash, start);
        }
        if c == 42 {
            return self.token_here(TokenType::Star, start);
        }
        if c == 33 {
            let t = if self.match_byte(61) {
                TokenType::BangEqual
            } else {
                TokenType::Bang
            };
            return self.token_here(t, start);
        }
        if c == 61 {
            let t = if self.match_byte(61) {
                TokenType::EqualEqual
            } else {
                TokenType::Equal
            };
            return self.token_here(t, start);
        }
        if c == 60 {
            let t = if self.match_byte(61) {
                TokenType::LessEqual
            } else {
                TokenType::Less
            };
            return self.token_here(t, start);
        }
        if c == 62 {
            let t = if self.match_byte(61) {
                TokenType::GreaterEqual
            } else {
                TokenType::Greater
            };
            return self.token_here(t, start);
        }
        if c == 34 {
            return self.string_token(start);
        }
        self.error_token("Unexpected character.")
    }

    /// Consumes the next byte if it is `expected`.
    fn match_byte(&mut self, expected: u8) -> (r: bool)
        requires
            old(self).wf(),
        ensures
            final(self).wf(),
            final(self).source == old(self).source,
            final(self).line == old(self).line,
            r ==> old(self).current < old(self).source@.len() && old(self).source@[old(
                self,
            ).current as int] == expected && final(self).current == old(self).current + 1,
            !r ==> final(self).current == old(self).current && !(old(self).current < old(
                self,
            ).source@.len() && old(self).source@[old(self).current as int] == expected),
    {
        if self.current < self.source.len() && self.source[self.current] == expected {
            self.current = self.current + 1;
            true
        } else {
            false
        }
    }

    /// The rest of a number literal: digits, then optionally a decimal
    /// point followed by at least one digit. The byte before the cursor is
    /// the literal's first digit.
    fn number_token(&mut self, start: usize) -> (t: Token)
        requires
            old(self).wf(),
            start + 1 == old(self).current,
            old(self).current <= old(self).source@.len(),
            crate::number::is_digit(old(self).source@[start as int]),
        ensures
            final(self).wf(),
            final(self).source == old(self).source,
            final(self).current >= old(self).current,
            final(self).line == old(self).line,
            t.token_type == TokenType::Number,
            t.line == final(self).line,
            is_number_lexeme(t.lexeme@),
            lexeme_fits(t.token_type, t.lexeme@),
            t.lexeme@ == final(self).source@.subrange(start as int, final(self).current as int),
            t.lexeme@.len() == final(self).current - start,
            final(self).current == final(self).source@.len() || !crate::number::is_digit(
                final(self).source@[final(self).current as int],
            ),
            crate::number::all_digits(t.lexeme@) ==> !(final(self).current + 1
                < final(self).source@.len() && final(self).source@[final(self).current as int]
                == 46 && crate::number::is_digit(final(self).source@[final(self).current + 1])),
            ({
                let src = old(self).source@;
                let d1 = spec_digits_end(src, start + 1);
                final(self).current as int == (if d1 + 1 < src.len() && src[d1] == 46
                    && crate::number::is_digit(src[d1 + 1]) {
                    spec_digits_end(src, d1 + 2)
                } else {
                    d1
                })
            }),
    {
        let ghost src = self.source@;
        while self.current < self.source.len() && Self::is_digit_byte(self.source[self.current])
            invariant
                self.wf(),
                self.source == old(self).source,
                self.source@ == src,
                start < self.current,
                forall|j: int|
                    start <= j < self.current ==> crate::number::is_digit(#[trigger] src[j]),
                self.line == old(self).line,
            decreases self.source@.len() - self.current,
        {
            self.current = self.current + 1;
        }
        let int_end = self.current;
        proof {
            lemma_digits_end_is(src, start + 1, int_end as int);
        }
        if self.current + 1 < self.source.len() && self.source[self.current] == 46
            && Self::is_digit_byte(self.source[self.current + 1]) {
            self.current = self.current + 2;
            while self.current < self.source.len() && Self::is_digit_byte(self.source[self.current])
                invariant
                    self.wf(),
                    self.source == old(self).source,
                    self.source@ == src,
                    int_end + 1 < self.current,
                    forall|j: int|
                        int_end + 1 <= j < self.current ==> crate::number::is_digit(
                            #[trigger] src[j],
                        ),
                    self.line == old(self).line,
                decreases self.source@.len() - self.current,
            {
                self.current = self.current + 1;
            }
            proof {
                lemma_digits_end_is(src, int_end + 2, self.current as int);
            }
            let t = self.token_here(TokenType::Number, start);
            proof {
                let lex = t.lexeme@;
                let k = int_end - start;
                assert(lex[k] == src[int_end as int]);
                assert(lex[k] == 46);
                assert forall|j: int| 0 <= j < k implies crate::number::is_digit(
                    #[trigger] lex.subrange(0, k)[j],
                ) by {
                    assert(lex.subrange(0, k)[j] == src[start + j]);
                }
                assert forall|j: int| 0 <= j < lex.len() - (k + 1) implies crate::number::is_digit(
                    #[trigger] lex.subrange(k + 1, lex.len() as int)[j],
                ) by {
                    assert(lex.subrange(k + 1, lex.len() as int)[j] == src[int_end + 1 + j]);
                }
                assert(crate::number::all_digits(lex.subrange(0, k)));
                assert(crate::number::all_digits(lex.subrange(k + 1, lex.len() as int)));
                assert(0 < k < lex.len() - 1);
                assert(is_number_lexeme(lex));
            }
            t
        } else {
            let t = self.token_here(TokenType::Number, start);
            proof {
                let lex = t.lexeme@;
                assert forall|j: int| 0 <= j < lex.len() implies crate::number::is_digit(
                    #[trigger] lex[j],
                ) by {
                    assert(lex[j] == src[start + j]);
                }
                assert(lex.len() > 0);
                assert(is_number_lexeme(lex));
            }
            t
        }
    }

    /// The rest of an identifier; the lexeme decides whether it is a
    /// reserved word.
    fn identifier_token(&mut self, start: usize) -> (t: Token)
        requires
            old(self).wf(),
            start + 1 == old(self).current,
            old(self).current <= old(self).source@.len(),
            is_alpha(old(self).source@[start as int]),
        ensures
            final(self).wf(),
            final(self).source == old(self).source,
            final(self).current >= old(self).current,
            final(self).line == old(self).line,
            t.line == final(self).line,
            t.token_type == spec_keyword_type(t.lexeme@),
            lexeme_fits(t.token_type, t.lexeme@),
            t.lexeme@ == final(self).source@.subrange(start as int, final(self).current as int),
            t.lexeme@.len() == final(self).current - start,
            final(self).current == final(self).source@.len() || !(is_alpha(
                final(self).source@[final(self).current as int],
            ) || crate::number::is_digit(final(self).source@[final(self).current as int])),
            final(self).current as int == spec_word_end(old(self).source@, start + 1),
    {
        let ghost src = self.source@;
        while self.current < self.source.len() && (Self::is_alpha_byte(self.source[self.current])
            || Self::is_digit_byte(self.source[self.current]))
            invariant
                self.wf(),
                self.source == old(self).source,
                self.source@ == src,
                start < self.current,
                self.current >= old(self).current,
                self.line == old(self).line,
                forall|j: int|
                    start <= j < self.current ==> is_alpha(#[trigger] src[j])
                        || crate::number::is_digit(src[j]),
            decreases self.source@.len() - self.current,
        {
            self.current = self.current + 1;
        }
        proof {
            lemma_word_end_is(src, start + 1, self.current as int);
        }
        let t = self.token_here(TokenType::Identifier, start);
        let kind = keyword_type(&t.lexeme);
        proof {
            let lex = t.lexeme@;
            assert(lex[0] == src[start as int]);
            assert forall|i: int| 0 <= i < lex.len() implies is_alpha(#[trigger] lex[i])
                || crate::number::is_digit(lex[i]) by {
                assert(lex[i] == src[start + i]);
            }
            assert(is_identifier_lexeme(lex));
        }
        Token { token_type: kind, lexeme: t.lexeme, line: t.line }
    }

    /// The rest of a string literal, the opening quote already consumed.
    /// The lexeme spans the quotes; a string may contain newlines. Reaching
    /// the end of the source instead of a closing quote is an error.
    fn string_token(&mut self, start: usize) -> (t: Token)
        requires
            old(self).wf(),
            start + 1 == old(self).current,
            old(self).current <= old(self).source@.len(),
            old(self).source@[start as int] == 34,
        ensures
            final(self).wf(),
            final(self).source == old(self).source,
            final(self).current >= old(self).current,
            final(self).line >= old(self).line,
            t.line == final(self).line,
            t.token_type == TokenType::Str || t.token_type == TokenType::Error,
            t.token_type == TokenType::Error ==> t.lexeme@ == "Unterminated string.".spec_bytes()
                && final(self).current == final(self).source@.len() && (forall|j: int|
                start < j < final(self).source@.len() ==> final(self).source@[j] != 34),
            lexeme_fits(t.token_type, t.lexeme@),
            t.token_type == TokenType::Str ==> t.lexeme@ == final(self).source@.subrange(
                start as int,
                final(self).current as int,
            ) && t.lexeme@.len() == final(self).current - start,
            ({
                let r = spec_string_end(old(self).source@, start + 1, old(self).line as int);
                &&& (t.token_type == TokenType::Str <==> r.0)
                &&& final(self).current as int == r.1
                &&& final(self).line as int == r.2
            }),
    {
        let ghost src = self.source@;
        let ghost line0 = self.line as int;
        while self.current < self.source.len() && self.source[self.current] != 34
            invariant
                self.wf(),
                self.source == old(self).source,
                self.source@ == src,
                start < self.current,
                self.current >= old(self).current,
                self.line >= old(self).line,
                start + 1 <= self.current,
                forall|j: int| start < j < self.current ==> #[trigger] src[j] != 34,
                spec_string_end(src, start + 1, line0) == spec_string_end(
                    src,
                    self.current as int,
                    self.line as int,
                ),
            decreases self.source@.len() - self.current,
        {
            let c = self.source[self.current];
            self.current = self.current + 1;
            if c == 10 {
                self.line = self.line + 1;
            }
        }
        if self.current >= self.source.len() {
            return self.error_token("Unterminated string.");
        }
        self.current = self.current + 1;
        let t = self.token_here(TokenType::Str, start);
        proof {
            let lex = t.lexeme@;
            assert(lex[0] == src[start as int]);
            assert(lex.last() == src[self.current - 1]);
            assert forall|i: int| 0 < i < lex.len() - 1 implies #[trigger] lex[i] != 34 by {
                assert(lex[i] == src[start + i]);
            }
            assert(is_string_lexeme(lex));
        }
        t
    }
}

} // verus!
