use vstd::prelude::*;
use vstd::string::StrSliceExecFns;

use crate::errors::{Diagnostics, Report, StaticErrorKind};
use crate::token::{Token, TokenKind, TokenType, TokenView};

verus! {

// ---------------------------------------------------------------------------
// The lexical grammar, as spec functions over the source characters.
/// The character at `i`, or NUL past either end.
pub open spec fn char_at(src: Seq<char>, i: int) -> char {
    if 0 <= i < src.len() {
        src[i]
    } else {
        '\0'
    }
}

pub open spec fn is_digit(c: char) -> bool {
    '0' <= c && c <= '9'
}

pub open spec fn is_ascii_letter(c: char) -> bool {
    ('a' <= c && c <= 'z') || ('A' <= c && c <= 'Z')
}

/// Whether `c` has the Unicode Alphabetic property (what
/// `char::is_alphabetic` returns).
pub uninterp spec fn alphabetic_of(c: char) -> bool;

/// Whether `c` is Unicode alphabetic or numeric (what
/// `char::is_alphanumeric` returns).
pub uninterp spec fn alphanumeric_of(c: char) -> bool;

/// Whether `c` starts an identifier: an underscore or an alphabetic
/// character (an ASCII character is alphabetic exactly when it is a letter).
pub open spec fn is_alpha(c: char) -> bool {
    c == '_' || is_ascii_letter(c) || ((c as u32) >= 128 && alphabetic_of(c))
}

/// Whether `c` continues an identifier: an alphanumeric character (an ASCII
/// character is alphanumeric exactly when it is a letter or a digit; an
/// underscore is not).
pub open spec fn is_alnum(c: char) -> bool {
    is_ascii_letter(c) || is_digit(c) || ((c as u32) >= 128 && alphanumeric_of(c))
}

/// The line counter after a newline (it stays put at the largest line).
pub open spec fn next_line(line: u32) -> u32 {
    if line < u32::MAX {
        (line + 1) as u32
    } else {
        line
    }
}

/// How many digits start at `i`.
pub open spec fn digits_len(src: Seq<char>, i: int) -> nat
    decreases src.len() - i,
{
    if 0 <= i < src.len() && is_digit(src[i]) {
        1 + digits_len(src, i + 1)
    } else {
        0
    }
}

/// How many identifier-continuing (alphanumeric) characters start at `i`.
pub open spec fn alnum_len(src: Seq<char>, i: int) -> nat
    decreases src.len() - i,
{
    if 0 <= i < src.len() && is_alnum(src[i]) {
        1 + alnum_len(src, i + 1)
    } else {
        0
    }
}

/// The length of the number literal whose first digit is at `s`:
/// integer digits, then optionally a `.` followed by at least one digit.
pub open spec fn number_len(src: Seq<char>, s: int) -> nat {
    let d = 1 + digits_len(src, s + 1);
    if char_at(src, s + d) == '.' && is_digit(char_at(src, s + d + 1)) {
        d + 1 + digits_len(src, s + d + 1)
    } else {
        d
    }
}

/// How many characters from `i` on come before the next `"` (or the end).
pub open spec fn string_body_len(src: Seq<char>, i: int) -> nat
    decreases src.len() - i,
{
    if 0 <= i < src.len() && src[i] != '"' {
        1 + string_body_len(src, i + 1)
    } else {
        0
    }
}

/// How many characters from `i` on come before the next newline (or the end).
pub open spec fn line_rest_len(src: Seq<char>, i: int) -> nat
    decreases src.len() - i,
{
    if 0 <= i < src.len() && src[i] != '\n' {
        1 + line_rest_len(src, i + 1)
    } else {
        0
    }
}

/// How many characters from `i` on belong to a block comment that is open
/// `depth` levels deep: up to and including the `*/` that closes the
/// outermost level, or up to the end. A `/*` inside opens a nested level.
pub open spec fn block_len(src: Seq<char>, i: int, depth: nat) -> nat
    decreases src.len() - i,
{
    if i < 0 || i >= src.len() {
        0
    } else if src[i] == '*' && char_at(src, i + 1) == '/' {
        if depth <= 1 {
            2
        } else {
            2 + block_len(src, i + 2, (depth - 1) as nat)
        }
    } else if src[i] == '/' && char_at(src, i + 1) == '*' {
        2 + block_len(src, i + 2, depth + 1)
    } else {
        1 + block_len(src, i + 1, depth)
    }
}

/// The line counter after passing the `n` characters that start at `i`.
pub open spec fn line_after(src: Seq<char>, i: int, n: nat, line: u32) -> u32
    decreases n,
{
    if n == 0 {
        line
    } else {
        line_after(
            src,
            i + 1,
            (n - 1) as nat,
            if char_at(src, i) == '\n' {
                next_line(line)
            } else {
                line
            },
        )
    }
}

/// The reserved word spelled by `text`, if any.
pub open spec fn keyword(text: Seq<char>) -> Option<TokenKind> {
    if text == "and"@ {
        Some(TokenKind::And)
    } else if text == "class"@ {
        Some(TokenKind::Class)
    } else if text == "else"@ {
        Some(TokenKind::Else)
    } else if text == "false"@ {
        Some(TokenKind::False)
    } else if text == "for"@ {
        Some(TokenKind::For)
    } else if text == "fun"@ {
        Some(TokenKind::Fun)
    } else if text == "if"@ {
        Some(TokenKind::If)
    } else if text == "nil"@ {
        Some(TokenKind::Nil)
    } else if text == "or"@ {
        Some(TokenKind::Or)
    } else if text == "print"@ {
        Some(TokenKind::Print)
    } else if text == "return"@ {
        Some(TokenKind::Return)
    } else if text == "super"@ {
        Some(TokenKind::Super)
    } else if text == "this"@ {
        Some(TokenKind::This)
    } else if text == "true"@ {
        Some(TokenKind::True)
    } else if text == "var"@ {
        Some(TokenKind::Var)
    } else if text == "while"@ {
        Some(TokenKind::While)
    } else {
        None
    }
}

/// What one lexeme of the source turns into.
pub enum LexOutcome {
    /// A token of this kind; its text is the lexeme.
    Emit(TokenKind),
    /// A lexical error, reported on this line.
    Fail(StaticErrorKind, u32),
    /// Whitespace or a comment.
    Skip,
}

/// The punctuation token that `c`, alone or followed by `next`, starts, and
/// how many characters it takes.
pub open spec fn punctuation(c: char, next: char) -> Option<(TokenKind, nat)> {
    if c == '(' {
        Some((TokenKind::LeftParen, 1))
    } else if c == ')' {
        Some((TokenKind::RightParen, 1))
    } else if c == '{' {
        Some((TokenKind::LeftBrace, 1))
    } else if c == '}' {
        Some((TokenKind::RightBrace, 1))
    } else if c == ',' {
        Some((TokenKind::Comma, 1))
    } else if c == '.' {
        Some((TokenKind::Dot, 1))
    } else if c == '-' {
        Some((TokenKind::Minus, 1))
    } else if c == '+' {
        Some((TokenKind::Plus, 1))
    } else if c == ';' {
        Some((TokenKind::Semicolon, 1))
    } else if c == '*' {
        Some((TokenKind::Star, 1))
    } else if c == '?' {
        Some((TokenKind::QuestionMark, 1))
    } else if c == ':' {
        Some((TokenKind::Colon, 1))
    } else if c == '!' {
        if next == '=' {
            Some((TokenKind::BangEqual, 2))
        } else {
            Some((TokenKind::Bang, 1))
        }
    } else if c == '=' {
        if next == '=' {
            Some((TokenKind::EqualEqual, 2))
        } else {
            Some((TokenKind::Equal, 1))
        }
    } else if c == '<' {
        if next == '=' {
            Some((TokenKind::LessEqual, 2))
        } else {
            Some((TokenKind::Less, 1))
        }
    } else if c == '>' {
        if next == '=' {
            Some((TokenKind::GreaterEqual, 2))
        } else {
            Some((TokenKind::Greater, 1))
        }
    } else {
        None
    }
}

/// The lexeme that starts at `s` (on line `line`): what it turns into, how
/// many characters it takes (at least one), and the line after it.
pub open spec fn lex_step(src: Seq<char>, s: int, line: u32) -> (LexOutcome, nat, u32) {
    let c = char_at(src, s);
    let next = char_at(src, s + 1);
    if let Some((kind, n)) = punctuation(c, next) {
        (LexOutcome::Emit(kind), n, line)
    } else if c == '/' {
        if next == '/' {
            (LexOutcome::Skip, 2 + line_rest_len(src, s + 2), line)
        } else if next == '*' {
            let n = 2 + block_len(src, s + 2, 1);
            (LexOutcome::Skip, n, line_after(src, s, n, line))
        } else {
            (LexOutcome::Emit(TokenKind::Slash), 1, line)
        }
    } else if c == '"' {
        let body = string_body_len(src, s + 1);
        let end_line = line_after(src, s + 1, body, line);
        if s + 1 + body >= src.len() {
            (
                LexOutcome::Fail(StaticErrorKind::UnterminatedString, end_line),
                1 + body,
                end_line,
            )
        } else {
            (
                LexOutcome::Emit(TokenKind::Str(src.subrange(s + 1, s + 1 + body))),
                2 + body,
                end_line,
            )
        }
    } else if c == '\n' {
        (LexOutcome::Skip, 1, next_line(line))
    } else if c == ' ' || c == '\r' || c == '\t' {
        (LexOutcome::Skip, 1, line)
    } else if is_digit(c) {
        let n = number_len(src, s);
        (LexOutcome::Emit(TokenKind::Number(src.subrange(s, s + n))), n, line)
    } else if is_alpha(c) {
        let n = 1 + alnum_len(src, s + 1);
        let text = src.subrange(s, s + n);
        (
            LexOutcome::Emit(
                if keyword(text) is Some {
                    keyword(text)->0
                } else {
                    TokenKind::Identifier(text)
                },
            ),
            n,
            line,
        )
    } else {
        (LexOutcome::Fail(StaticErrorKind::UnexpectedCharacter, line), 1, line)
    }
}

/// The tokens and the lexical errors of the source from `s` on, starting on
/// line `line`; the tokens end with exactly one end-of-input token.
pub open spec fn lex_from(src: Seq<char>, s: int, line: u32) -> (Seq<TokenView>, Seq<Report>)
    decreases src.len() - s,
{
    if s < 0 || s >= src.len() {
        (seq![TokenView { kind: TokenKind::EndOfFile, lexeme: Seq::empty(), line }], Seq::empty())
    } else {
        let (out, len, next) = lex_step(src, s, line);
        // A lexeme never runs past the end (`lemma_lex_step_bounds`).
        let n = if 0 < len && s + len <= src.len() {
            len as int
        } else {
            src.len() - s
        };
        let rest = lex_from(src, s + n, next);
        match out {
            LexOutcome::Emit(kind) => (
                seq![TokenView { kind, lexeme: src.subrange(s, s + n), line }] + rest.0,
                rest.1,
            ),
            LexOutcome::Fail(kind, at) => (rest.0, seq![Report { line: at, kind }] + rest.1),
            LexOutcome::Skip => rest,
        }
    }
}

/// The tokens and lexical errors of a whole source text.
pub open spec fn lex(src: Seq<char>) -> (Seq<TokenView>, Seq<Report>) {
    lex_from(src, 0, 1)
}


// ---------------------------------------------------------------------------
// The executable scanner.
/// Relies on `String::push`: appends one character at the end.
#[verifier::external_body]
fn push_char(s: &mut String, c: char)
    ensures
        final(s)@ == old(s)@.push(c),
{
    s.push(c);
}

/// What one scanned lexeme turns into (executable form of `LexOutcome`).
pub enum Scanned {
    Emit(TokenType),
    Fail(StaticErrorKind, u32),
    Skip,
}

impl View for Scanned {
    type V = LexOutcome;

    open spec fn view(&self) -> LexOutcome {
        match self {
            Scanned::Emit(t) => LexOutcome::Emit(t@),
            Scanned::Fail(k, l) => LexOutcome::Fail(*k, *l),
            Scanned::Skip => LexOutcome::Skip,
        }
    }
}

fn is_digit_char(c: char) -> (r: bool)
    ensures
        r == is_digit(c),
{
    '0' <= c && c <= '9'
}

/// Relies on `char::is_alphabetic`, which answers from the ASCII ranges
/// `a..=z` and `A..=Z` for an ASCII character and from the Unicode tables
/// otherwise.
#[verifier::external_body]
fn alphabetic(c: char) -> (r: bool)
    ensures
        r == alphabetic_of(c),
        (c as u32) < 128 ==> (r <==> is_ascii_letter(c)),
{
    c.is_alphabetic()
}

/// Relies on `char::is_alphanumeric` (alphabetic or numeric), which answers
/// from the ASCII ranges `a..=z`, `A..=Z` and `0..=9` for an ASCII character
/// and from the Unicode tables otherwise.
#[verifier::external_body]
fn alphanumeric(c: char) -> (r: bool)
    ensures
        r == alphanumeric_of(c),
        (c as u32) < 128 ==> (r <==> (is_ascii_letter(c) || is_digit(c))),
{
    c.is_alphanumeric()
}

fn is_alpha_char(c: char) -> (r: bool)
    ensures
        r == is_alpha(c),
{
    c == '_' || alphabetic(c)
}

fn is_alnum_char(c: char) -> (r: bool)
    ensures
        r == is_alnum(c),
{
    alphanumeric(c)
}

fn char_at_exec(src: &Vec<char>, i: usize) -> (r: char)
    ensures
        r == char_at(src@, i as int),
{
    if i < src.len() {
        src[i]
    } else {
        '\0'
    }
}

fn bump_line(line: u32) -> (r: u32)
    ensures
        r == next_line(line),
{
    if line < u32::MAX {
        line + 1
    } else {
        line
    }
}

/// The characters `src[a..b]` as a string.
fn text_of(src: &Vec<char>, a: usize, b: usize) -> (r: String)
    requires
        a <= b <= src@.len(),
    ensures
        r@ == src@.subrange(a as int, b as int),
{
    let mut out = String::new();
    let mut k = a;
    while k < b
        invariant
            a <= k <= b <= src@.len(),
            out@ == src@.subrange(a as int, k as int),
        decreases b - k,
    {
        push_char(&mut out, src[k]);
        proof {
            assert(src@.subrange(a as int, k + 1) =~= src@.subrange(a as int, k as int).push(
                src@[k as int],
            ));
        }
        k += 1;
    }
    out
}

/// Whether `src[a..b]` spells `word`.
fn spells(src: &Vec<char>, a: usize, b: usize, word: &str) -> (r: bool)
    requires
        a <= b <= src@.len(),
    ensures
        r == (src@.subrange(a as int, b as int) == word@),
{
    let n = word.unicode_len();
    if b - a != n {
        return false;
    }
    let mut k: usize = 0;
    while k < n
        invariant
            a <= b <= src@.len(),
            b - a == n == word@.len(),
            k <= n,
            forall|t: int| 0 <= t < k ==> src@[a + t] == word@[t],
        decreases n - k,
    {
        if src[a + k] != word.get_char(k) {
            proof {
                assert(src@.subrange(a as int, b as int)[k as int] != word@[k as int]);
            }
            return false;
        }
        k += 1;
    }
    proof {
        assert(src@.subrange(a as int, b as int) =~= word@);
    }
    true
}

/// The reserved word spelled by `src[a..b]`, if any.
fn keyword_at(src: &Vec<char>, a: usize, b: usize) -> (r: Option<TokenType>)
    requires
        a <= b <= src@.len(),
    ensures
        r is Some == keyword(src@.subrange(a as int, b as int)) is Some,
        r is Some ==> r->0@ == keyword(src@.subrange(a as int, b as int))->0,
{
    if spells(src, a, b, "and") {
        Some(TokenType::And)
    } else if spells(src, a, b, "class") {
        Some(TokenType::Class)
    } else if spells(src, a, b, "else") {
        Some(TokenType::Else)
    } else if spells(src, a, b, "false") {
        Some(TokenType::False)
    } else if spells(src, a, b, "for") {
        Some(TokenType::For)
    } else if spells(src, a, b, "fun") {
        Some(TokenType::Fun)
    } else if spells(src, a, b, "if") {
        Some(TokenType::If)
    } else if spells(src, a, b, "nil") {
        Some(TokenType::Nil)
    } else if spells(src, a, b, "or") {
        Some(TokenType::Or)
    } else if spells(src, a, b, "print") {
        Some(TokenType::Print)
    } else if spells(src, a, b, "return") {
        Some(TokenType::Return)
    } else if spells(src, a, b, "super") {
        Some(TokenType::Super)
    } else if spells(src, a, b, "this") {
        Some(TokenType::This)
    } else if spells(src, a, b, "true") {
        Some(TokenType::True)
    } else if spells(src, a, b, "var") {
        Some(TokenType::Var)
    } else if spells(src, a, b, "while") {
        Some(TokenType::While)
    } else {
        None
    }
}


/// `i` plus the number of characters from `i` on that satisfy the scan rule
/// of `digits_len`.
fn digits_end(src: &Vec<char>, i: usize) -> (r: usize)
    requires
        i <= src@.len(),
    ensures
        r == i + digits_len(src@, i as int),
        r <= src@.len(),
{
    let mut j = i;
    while j < src.len() && is_digit_char(src[j])
        invariant
            i <= j <= src@.len(),
            digits_len(src@, i as int) == (j - i) + digits_len(src@, j as int),
        decreases src@.len() - j,
    {
        j += 1;
    }
    j
}

fn alnum_end(src: &Vec<char>, i: usize) -> (r: usize)
    requires
        i <= src@.len(),
    ensures
        r == i + alnum_len(src@, i as int),
        r <= src@.len(),
{
    let mut j = i;
    while j < src.len() && is_alnum_char(src[j])
        invariant
            i <= j <= src@.len(),
            alnum_len(src@, i as int) == (j - i) + alnum_len(src@, j as int),
        decreases src@.len() - j,
    {
        j += 1;
    }
    j
}

fn string_body_end(src: &Vec<char>, i: usize) -> (r: usize)
    requires
        i <= src@.len(),
    ensures
        r == i + string_body_len(src@, i as int),
        r <= src@.len(),
{
    let mut j = i;
    while j < src.len() && src[j] != '"'
        invariant
            i <= j <= src@.len(),
            string_body_len(src@, i as int) == (j - i) + string_body_len(src@, j as int),
        decreases src@.len() - j,
    {
        j += 1;
    }
    j
}

fn line_rest_end(src: &Vec<char>, i: usize) -> (r: usize)
    requires
        i <= src@.len(),
    ensures
        r == i + line_rest_len(src@, i as int),
        r <= src@.len(),
{
    let mut j = i;
    while j < src.len() && src[j] != '\n'
        invariant
            i <= j <= src@.len(),
            line_rest_len(src@, i as int) == (j - i) + line_rest_len(src@, j as int),
        decreases src@.len() - j,
    {
        j += 1;
    }
    j
}

fn block_end(src: &Vec<char>, i: usize) -> (r: usize)
    requires
        i <= src@.len(),
    ensures
        r == i + block_len(src@, i as int, 1),
        r <= src@.len(),
{
    let mut j = i;
    let mut depth: usize = 1;
    while j < src.len()
        invariant
            i <= j <= src@.len(),
            1 <= depth <= j - i + 1,
            i + block_len(src@, i as int, 1) == j + block_len(src@, j as int, depth as nat),
        decreases src@.len() - j,
    {
        let next = char_at_exec(src, j + 1);
        if src[j] == '*' && next == '/' {
            if depth <= 1 {
                return j + 2;
            }
            depth -= 1;
            j += 2;
        } else if src[j] == '/' && next == '*' {
            depth += 1;
            j += 2;
        } else {
            j += 1;
        }
    }
    j
}

/// The line counter after passing `n` characters from `i` on.
fn lines_through(src: &Vec<char>, i: usize, n: usize, line: u32) -> (r: u32)
    requires
        i + n <= src@.len(),
    ensures
        r == line_after(src@, i as int, n as nat, line),
{
    let mut j = i;
    let mut cur = line;
    let _len = src.len(); // the length is a usize: bounds the index arithmetic below
    let end = i + n;
    while j < end
        invariant
            end == i + n,
            i <= j <= i + n <= src@.len(),
            line_after(src@, i as int, n as nat, line) == line_after(
                src@,
                j as int,
                (n - (j - i)) as nat,
                cur,
            ),
        decreases end - j,
    {
        if src[j] == '\n' {
            cur = bump_line(cur);
        }
        j += 1;
    }
    cur
}


/// Scans the lexeme that starts at `s` on line `line`.
fn scan_token(src: &Vec<char>, s: usize, line: u32) -> (r: (Scanned, usize, u32))
    requires
        s < src@.len(),
    ensures
        r.0@ == lex_step(src@, s as int, line).0,
        r.1 == lex_step(src@, s as int, line).1,
        r.2 == lex_step(src@, s as int, line).2,
        1 <= r.1,
        s + r.1 <= src@.len(),
{
    let _len = src.len(); // the length is a usize: bounds the index arithmetic below
    let c = src[s];
    let next = char_at_exec(src, s + 1);
    let two = next == '=';
    let (kind, n): (TokenType, usize) = match c {
        '(' => (TokenType::LeftParen, 1),
        ')' => (TokenType::RightParen, 1),
        '{' => (TokenType::LeftBrace, 1),
        '}' => (TokenType::RightBrace, 1),
        ',' => (TokenType::Comma, 1),
        '.' => (TokenType::Dot, 1),
        '-' => (TokenType::Minus, 1),
        '+' => (TokenType::Plus, 1),
        ';' => (TokenType::Semicolon, 1),
        '*' => (TokenType::Star, 1),
        '?' => (TokenType::QuestionMark, 1),
        ':' => (TokenType::Colon, 1),
        '!' => if two {
            (TokenType::BangEqual, 2)
        } else {
            (TokenType::Bang, 1)
        },
        '=' => if two {
            (TokenType::EqualEqual, 2)
        } else {
            (TokenType::Equal, 1)
        },
        '<' => if two {
            (TokenType::LessEqual, 2)
        } else {
            (TokenType::Less, 1)
        },
        '>' => if two {
            (TokenType::GreaterEqual, 2)
        } else {
            (TokenType::Greater, 1)
        },
        _ => (TokenType::EndOfFile, 0),
    };
    if n > 0 {
        return (Scanned::Emit(kind), n, line);
    }
    if c == '/' {
        if next == '/' {
            let end = line_rest_end(src, s + 2);
            (Scanned::Skip, end - s, line)
        } else if next == '*' {
            let end = block_end(src, s + 2);
            let after = lines_through(src, s, end - s, line);
            (Scanned::Skip, end - s, after)
        } else {
            (Scanned::Emit(TokenType::Slash), 1, line)
        }
    } else if c == '"' {
        let close = string_body_end(src, s + 1);
        let end_line = lines_through(src, s + 1, close - (s + 1), line);
        if close >= src.len() {
            (Scanned::Fail(StaticErrorKind::UnterminatedString, end_line), close - s, end_line)
        } else {
            (
                Scanned::Emit(TokenType::Str(text_of(src, s + 1, close))),
                close + 1 - s,
                end_line,
            )
        }
    } else if c == '\n' {
        (Scanned::Skip, 1, bump_line(line))
    } else if c == ' ' || c == '\r' || c == '\t' {
        (Scanned::Skip, 1, line)
    } else if is_digit_char(c) {
        let int_end = digits_end(src, s + 1);
        let end = if char_at_exec(src, int_end) == '.' && is_digit_char(
            char_at_exec(src, int_end + 1),
        ) {
            digits_end(src, int_end + 1)
        } else {
            int_end
        };
        (Scanned::Emit(TokenType::Number(text_of(src, s, end))), end - s, line)
    } else if is_alpha_char(c) {
        let end = alnum_end(src, s + 1);
        let kind = match keyword_at(src, s, end) {
            Some(k) => k,
            None => TokenType::Identifier(text_of(src, s, end)),
        };
        (Scanned::Emit(kind), end - s, line)
    } else {
        (Scanned::Fail(StaticErrorKind::UnexpectedCharacter, line), 1, line)
    }
}


/// The lexer: turns source text into tokens.
pub struct Scanner {
    source: Vec<char>,
}

impl Scanner {
    pub closed spec fn source(&self) -> Seq<char> {
        self.source@
    }

    pub fn new(source: String) -> (r: Self)
        ensures
            r.source() == source@,
    {
        let text = source.as_str();
        let mut chars: Vec<char> = Vec::new();
        for c in it: text.chars()
            invariant
                chars@ == it.seq().subrange(0, it.index() as int),
        {
            chars.push(c);
        }
        Scanner { source: chars }
    }

    /// Scans the whole source: the tokens, ending with one end-of-input
    /// token; each lexical error is recorded in `diag` and scanning goes on.
    pub fn scan_tokens(&self, diag: &mut Diagnostics) -> (r: Vec<Token>)
        ensures
            r@.map_values(|t: Token| t@) == lex(self.source()).0,
            r@.len() > 0,
            r@.last().token_type@ is EndOfFile,
            final(diag).spec_reports() == old(diag).spec_reports() + lex(self.source()).1,
            final(diag).spec_runtime_errors() == old(diag).spec_runtime_errors(),
    {
        let src = &self.source;
        let mut tokens: Vec<Token> = Vec::new();
        let mut cur: usize = 0;
        let mut line: u32 = 1;
        while cur < src.len()
            invariant
                cur <= src@.len(),
                tokens@.map_values(|t: Token| t@) + lex_from(src@, cur as int, line).0 == lex(
                    src@,
                ).0,
                diag.spec_reports() + lex_from(src@, cur as int, line).1
                    == old(diag).spec_reports() + lex(src@).1,
                diag.spec_runtime_errors() == old(diag).spec_runtime_errors(),
            decreases src@.len() - cur,
        {
            let (out, n, next) = scan_token(src, cur, line);
            let ghost rest = lex_from(src@, cur + n, next);
            let ghost old_tokens = tokens@.map_values(|t: Token| t@);
            let ghost old_reports = diag.spec_reports();
            match out {
                Scanned::Emit(kind) => {
                    let t = Token::new(kind, text_of(src, cur, cur + n), line);
                    tokens.push(t);
                    proof {
                        assert(tokens@.map_values(|t: Token| t@) =~= old_tokens.push(t@));
                        assert(old_tokens.push(t@) + rest.0 =~= old_tokens + (seq![t@] + rest.0));
                    }
                },
                Scanned::Fail(kind, at) => {
                    crate::errors::error(diag, at, kind);
                    proof {
                        let rep = Report { line: at, kind };
                        assert(old_reports.push(rep) + rest.1 =~= old_reports + (seq![rep]
                            + rest.1));
                    }
                },
                Scanned::Skip => {},
            }
            cur = cur + n;
            line = next;
        }
        let ghost old_tokens = tokens@.map_values(|t: Token| t@);
        let eof = Token::new(TokenType::EndOfFile, String::new(), line);
        tokens.push(eof);
        proof {
            assert(tokens@.map_values(|t: Token| t@) =~= old_tokens.push(eof@));
            assert(lex_from(src@, cur as int, line).0 =~= seq![eof@]);
            assert(lex_from(src@, cur as int, line).1 =~= Seq::<Report>::empty());
            assert(diag.spec_reports() =~= diag.spec_reports() + Seq::<Report>::empty());
        }
        tokens
    }
}


/// The tokens of every source end with exactly one end-of-input token.
pub proof fn lemma_one_end_of_input(src: Seq<char>, s: int, line: u32)
    ensures
        lex_from(src, s, line).0.len() > 0,
        lex_from(src, s, line).0.last().kind is EndOfFile,
        forall|i: int|
            0 <= i < lex_from(src, s, line).0.len() - 1 ==> !((
            #[trigger] lex_from(src, s, line).0[i]).kind is EndOfFile),
    decreases src.len() - s,
{
    if 0 <= s < src.len() {
        let (out, len, next) = lex_step(src, s, line);
        let n = if 0 < len && s + len <= src.len() {
            len as int
        } else {
            src.len() - s
        };
        lemma_one_end_of_input(src, s + n, next);
        let rest = lex_from(src, s + n, next).0;
        if let LexOutcome::Emit(kind) = out {
            let ts = lex_from(src, s, line).0;
            assert(ts[0].kind == kind);
            assert(!(kind is EndOfFile));
            assert forall|i: int| 0 < i < ts.len() - 1 implies !((#[trigger] ts[i]).kind is EndOfFile) by {
                assert(ts[i] == rest[i - 1]);
            }
        }
    }
}

// ---------------------------------------------------------------------------
// Scanning loses only layout.
/// Whether `c` is layout: a space, tab, carriage return or newline.
pub open spec fn is_layout(c: char) -> bool {
    c == ' ' || c == '\t' || c == '\r' || c == '\n'
}

/// The source from `i` on with whitespace and comments taken out; a string
/// literal is kept whole, quotes and inner spaces included.
pub open spec fn significant_from(src: Seq<char>, i: int) -> Seq<char>
    decreases src.len() - i,
{
    if i < 0 || i >= src.len() {
        Seq::empty()
    } else {
        let c = src[i];
        let next = char_at(src, i + 1);
        let skip_to = |j: int|
            if j <= src.len() {
                j
            } else {
                src.len() as int
            };
        if c == '"' {
            let end = skip_to(i + 2 + string_body_len(src, i + 1));
            src.subrange(i, end) + significant_from(src, end)
        } else if c == '/' && next == '/' {
            significant_from(src, skip_to(i + 2 + line_rest_len(src, i + 2)))
        } else if c == '/' && next == '*' {
            significant_from(src, skip_to(i + 2 + block_len(src, i + 2, 1)))
        } else if is_layout(c) {
            significant_from(src, i + 1)
        } else {
            seq![c] + significant_from(src, i + 1)
        }
    }
}

/// The lexemes of a token sequence, one after another.
pub open spec fn lexemes(ts: Seq<TokenView>) -> Seq<char>
    decreases ts.len(),
{
    if ts.len() == 0 {
        Seq::empty()
    } else {
        ts[0].lexeme + lexemes(ts.drop_first())
    }
}

proof fn lemma_digits(src: Seq<char>, i: int)
    requires
        0 <= i <= src.len(),
    ensures
        i + digits_len(src, i) <= src.len(),
        significant_from(src, i) == src.subrange(i, i + digits_len(src, i)) + significant_from(
            src,
            i + digits_len(src, i),
        ),
    decreases src.len() - i,
{
    if i < src.len() && is_digit(src[i]) {
        lemma_digits(src, i + 1);
        let d = digits_len(src, i);
        assert(src.subrange(i, i + d) =~= seq![src[i]] + src.subrange(i + 1, i + d));
    } else {
        assert(src.subrange(i, i) =~= Seq::<char>::empty());
    }
}

proof fn lemma_alnum(src: Seq<char>, i: int)
    requires
        0 <= i <= src.len(),
    ensures
        i + alnum_len(src, i) <= src.len(),
        significant_from(src, i) == src.subrange(i, i + alnum_len(src, i)) + significant_from(
            src,
            i + alnum_len(src, i),
        ),
    decreases src.len() - i,
{
    if i < src.len() && is_alnum(src[i]) {
        lemma_alnum(src, i + 1);
        let d = alnum_len(src, i);
        assert(src.subrange(i, i + d) =~= seq![src[i]] + src.subrange(i + 1, i + d));
    } else {
        assert(src.subrange(i, i) =~= Seq::<char>::empty());
    }
}

proof fn lemma_string_body_bound(src: Seq<char>, i: int)
    requires
        0 <= i <= src.len(),
    ensures
        i + string_body_len(src, i) <= src.len(),
        i + string_body_len(src, i) < src.len() ==> src[i + string_body_len(src, i)] == '"',
    decreases src.len() - i,
{
    if i < src.len() && src[i] != '"' {
        lemma_string_body_bound(src, i + 1);
    }
}

proof fn lemma_line_rest_bound(src: Seq<char>, i: int)
    requires
        0 <= i <= src.len(),
    ensures
        i + line_rest_len(src, i) <= src.len(),
    decreases src.len() - i,
{
    if i < src.len() && src[i] != '\n' {
        lemma_line_rest_bound(src, i + 1);
    }
}

proof fn lemma_block_bound(src: Seq<char>, i: int, depth: nat)
    requires
        0 <= i <= src.len(),
    ensures
        i + block_len(src, i, depth) <= src.len(),
    decreases src.len() - i,
{
    if i < src.len() {
        if src[i] == '*' && char_at(src, i + 1) == '/' {
            if depth > 1 {
                lemma_block_bound(src, i + 2, (depth - 1) as nat);
            }
        } else if src[i] == '/' && char_at(src, i + 1) == '*' {
            lemma_block_bound(src, i + 2, depth + 1);
        } else {
            lemma_block_bound(src, i + 1, depth);
        }
    }
}

/// Every lexeme takes at least one character and stays within the source.
pub proof fn lemma_lex_step_bounds(src: Seq<char>, s: int, line: u32)
    requires
        0 <= s < src.len(),
    ensures
        1 <= lex_step(src, s, line).1,
        s + lex_step(src, s, line).1 <= src.len(),
{
    lemma_digits(src, s + 1);
    lemma_alnum(src, s + 1);
    lemma_string_body_bound(src, s + 1);
    if s + 2 <= src.len() {
        lemma_line_rest_bound(src, s + 2);
        lemma_block_bound(src, s + 2, 1);
    }
    let d = 1 + digits_len(src, s + 1);
    if s + d + 1 <= src.len() {
        lemma_digits(src, s + d + 1);
    }
}

proof fn lemma_lexemes_from(src: Seq<char>, s: int, line: u32)
    requires
        0 <= s,
        lex_from(src, s, line).1.len() == 0,
    ensures
        lexemes(lex_from(src, s, line).0) == significant_from(src, s),
    decreases src.len() - s,
{
    if s >= src.len() {
        let ts = lex_from(src, s, line).0;
        assert(ts.drop_first() =~= Seq::<TokenView>::empty());
        assert(lexemes(ts.drop_first()) == Seq::<char>::empty());
        assert(ts[0].lexeme == Seq::<char>::empty());
        assert(lexemes(ts) =~= Seq::<char>::empty());
    } else {
        lemma_lex_step_bounds(src, s, line);
        let (out, n, next) = lex_step(src, s, line);
        let rest = lex_from(src, s + n, next);
        lemma_lexemes_from(src, s + n, next);
        let c = src[s];
        let nc = char_at(src, s + 1);
        match out {
            LexOutcome::Emit(kind) => {
                let ts = lex_from(src, s, line).0;
                assert(ts.drop_first() =~= rest.0);
                assert(lexemes(ts) == src.subrange(s, s + n) + lexemes(rest.0));
                if punctuation(c, nc) is Some {
                    if n == 2 {
                        assert(significant_from(src, s + 1) == seq![nc] + significant_from(
                            src,
                            s + 2,
                        ));
                        assert(src.subrange(s, s + 2) =~= seq![c, nc]);
                        assert(seq![c] + (seq![nc] + significant_from(src, s + 2)) =~= seq![
                            c,
                            nc,
                        ] + significant_from(src, s + 2));
                    } else {
                        assert(src.subrange(s, s + 1) =~= seq![c]);
                    }
                } else if c == '/' {
                    assert(src.subrange(s, s + 1) =~= seq![c]);
                } else if c == '"' {
                    lemma_string_body_bound(src, s + 1);
                } else if is_digit(c) {
                    lemma_digits(src, s + 1);
                    let d = 1 + digits_len(src, s + 1);
                    assert(src.subrange(s, s + d) =~= seq![c] + src.subrange(s + 1, s + d));
                    if char_at(src, s + d) == '.' && is_digit(char_at(src, s + d + 1)) {
                        lemma_digits(src, s + d + 1);
                        let e = s + d + 1 + digits_len(src, s + d + 1);
                        assert(significant_from(src, s + d) == seq!['.'] + significant_from(
                            src,
                            s + d + 1,
                        ));
                        assert(src.subrange(s, e) =~= src.subrange(s, s + d) + seq!['.']
                            + src.subrange(s + d + 1, e));
                        assert(src.subrange(s, s + d) + (seq!['.'] + (src.subrange(s + d + 1, e)
                            + significant_from(src, e))) =~= src.subrange(s, e) + significant_from(
                            src,
                            e,
                        ));
                    }
                    assert(seq![c] + (src.subrange(s + 1, s + d) + significant_from(src, s + d))
                        =~= src.subrange(s, s + d) + significant_from(src, s + d));
                } else {
                    lemma_alnum(src, s + 1);
                    let d = 1 + alnum_len(src, s + 1);
                    assert(src.subrange(s, s + d) =~= seq![c] + src.subrange(s + 1, s + d));
                    assert(seq![c] + (src.subrange(s + 1, s + d) + significant_from(src, s + d))
                        =~= src.subrange(s, s + d) + significant_from(src, s + d));
                }
            },
            LexOutcome::Fail(..) => {},
            LexOutcome::Skip => {},
        }
    }
}

/// Scanning loses nothing but layout: when a source scans without lexical
/// errors, the lexemes of its tokens, in order, spell the source with its
/// whitespace and comments taken out.
pub proof fn lemma_lexemes_spell_source(src: Seq<char>)
    requires
        lex(src).1.len() == 0,
    ensures
        lexemes(lex(src).0) == significant_from(src, 0),
{
    lemma_lexemes_from(src, 0, 1);
}

} // verus!
