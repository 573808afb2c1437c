//! The lexer: turns source text into a sequence of tokens.
use vstd::prelude::*;

use crate::text::{substring, to_chars};

verus! {

/// The kind of a token.
#[derive(Debug, PartialEq, Eq, Structural, Clone, Copy)]
pub enum TokenType {
    Identifier,
    Number,
    String,
    /// A name written between backquotes.
    FString,
    Symbol,
}

/// A token: its kind, its text and the line it starts on.
#[derive(Debug)]
pub struct Token {
    pub kind: TokenType,
    pub value: String,
    pub line: u32,
}

/// What a token is, as a mathematical value.
pub struct SpecToken {
    pub kind: TokenType,
    pub value: Seq<char>,
    pub line: nat,
}

impl View for Token {
    type V = SpecToken;

    open spec fn view(&self) -> SpecToken {
        SpecToken { kind: self.kind, value: self.value@, line: self.line as nat }
    }
}

/// The tokens of a token vector, as mathematical values.
pub open spec fn tokens_view(ts: Seq<Token>) -> Seq<SpecToken> {
    ts.map_values(|t: Token| t@)
}

/// Why a source text cannot be split into tokens.
#[derive(Debug, PartialEq, Eq, Structural, Clone, Copy)]
pub enum LexError {
    /// A character that starts no token.
    UnknownCharacter { character: char, line: u32 },
    /// The text ends right after the digits of a number.
    NumberAtEndOfInput { line: u32 },
}

/// ASCII whitespace: space, tab, line feed, form feed and carriage return.
pub open spec fn is_whitespace(c: char) -> bool {
    c == ' ' || c == '\t' || c == '\n' || c == '\x0C' || c == '\r'
}

pub open spec fn is_digit(c: char) -> bool {
    '0' <= c <= '9'
}

pub open spec fn is_letter(c: char) -> bool {
    ('a' <= c <= 'z') || ('A' <= c <= 'Z')
}

/// A character that may continue an identifier.
pub open spec fn is_ident_char(c: char) -> bool {
    is_digit(c) || is_letter(c) || c == '_'
}

/// The one-character symbols.
pub open spec fn is_single_symbol(c: char) -> bool {
    c == ';' || c == '{' || c == '}' || c == '(' || c == ')' || c == '[' || c == ']' || c == '<'
        || c == '>' || c == ',' || c == '.' || c == '=' || c == '!'
}

/// The index of the quote `q` that closes a quoted text whose contents start
/// at `j`: the first `q` at or after `j` not preceded by a backslash, or the
/// length of the text when there is none.
pub open spec fn quoted_end(s: Seq<char>, j: int, q: char) -> int
    decreases s.len() - j,
{
    if j >= s.len() {
        s.len() as int
    } else if s[j] == q && s[j - 1] != '\\' {
        j
    } else {
        quoted_end(s, j + 1, q)
    }
}

/// The end of the run of digits that starts at `j`.
pub open spec fn digits_end(s: Seq<char>, j: int) -> int
    decreases s.len() - j,
{
    if 0 <= j < s.len() && is_digit(s[j]) {
        digits_end(s, j + 1)
    } else {
        j
    }
}

/// The end of the run of identifier characters that starts at `j`.
pub open spec fn ident_end(s: Seq<char>, j: int) -> int
    decreases s.len() - j,
{
    if 0 <= j < s.len() && is_ident_char(s[j]) {
        ident_end(s, j + 1)
    } else {
        j
    }
}

/// The index of the line feed that ends the line holding `j`, or the length of
/// the text.
pub open spec fn line_end(s: Seq<char>, j: int) -> int
    decreases s.len() - j,
{
    if 0 <= j < s.len() && s[j] != '\n' {
        line_end(s, j + 1)
    } else {
        j
    }
}

pub proof fn lemma_quoted_end(s: Seq<char>, j: int, q: char)
    requires
        j <= s.len(),
    ensures
        j <= quoted_end(s, j, q) <= s.len(),
    decreases s.len() - j,
{
    if j < s.len() && !(s[j] == q && s[j - 1] != '\\') {
        lemma_quoted_end(s, j + 1, q);
    }
}

pub proof fn lemma_digits_end(s: Seq<char>, j: int)
    requires
        0 <= j <= s.len(),
    ensures
        j <= digits_end(s, j) <= s.len(),
        forall|k: int| j <= k < digits_end(s, j) ==> is_digit(#[trigger] s[k]),
        digits_end(s, j) < s.len() ==> !is_digit(s[digits_end(s, j)]),
    decreases s.len() - j,
{
    if j < s.len() && is_digit(s[j]) {
        lemma_digits_end(s, j + 1);
    }
}

pub proof fn lemma_ident_end(s: Seq<char>, j: int)
    requires
        0 <= j <= s.len(),
    ensures
        j <= ident_end(s, j) <= s.len(),
        forall|k: int| j <= k < ident_end(s, j) ==> is_ident_char(#[trigger] s[k]),
        ident_end(s, j) < s.len() ==> !is_ident_char(s[ident_end(s, j)]),
    decreases s.len() - j,
{
    if j < s.len() && is_ident_char(s[j]) {
        lemma_ident_end(s, j + 1);
    }
}

pub proof fn lemma_line_end(s: Seq<char>, j: int)
    requires
        0 <= j <= s.len(),
    ensures
        j <= line_end(s, j) <= s.len(),
        forall|k: int| j <= k < line_end(s, j) ==> #[trigger] s[k] != '\n',
    decreases s.len() - j,
{
    if j < s.len() && s[j] != '\n' {
        lemma_line_end(s, j + 1);
    }
}

pub open spec fn spec_token(kind: TokenType, value: Seq<char>, line: nat) -> SpecToken {
    SpecToken { kind, value, line }
}

/// `t` followed by the tokens of `rest`, or the error of `rest`.
pub open spec fn cons_token(t: SpecToken, rest: Result<Seq<SpecToken>, LexError>) -> Result<
    Seq<SpecToken>,
    LexError,
> {
    match rest {
        Ok(ts) => Ok(seq![t] + ts),
        Err(e) => Err(e),
    }
}

/// `ts` followed by the tokens of `rest`, or the error of `rest`.
pub open spec fn prepend_tokens(ts: Seq<SpecToken>, rest: Result<Seq<SpecToken>, LexError>) -> Result<
    Seq<SpecToken>,
    LexError,
> {
    match rest {
        Ok(us) => Ok(ts + us),
        Err(e) => Err(e),
    }
}

/// The tokens of `s` from index `i` on, when the scan stands on line `line`.
///
/// Whitespace separates tokens and each line feed starts a new line.
/// A `"` or a backquote starts a string or a name that runs to the next such
/// quote not preceded by a backslash (or to the end of the text); the token's
/// text is what stands between the quotes, line feeds inside it are not counted.
/// A digit starts a number: digits, then a `.` and more digits if a `.` follows.
/// A letter or `_` starts an identifier of letters, digits and `_`.
/// `;{}()[]<>,.=!` and `::` are symbols; `//` starts a comment that runs to the
/// end of the line.
pub open spec fn lex_from(s: Seq<char>, i: int, line: nat) -> Result<Seq<SpecToken>, LexError>
    decreases s.len() + 1 - i,
{
    if i < 0 || i >= s.len() {
        Ok(seq![])
    } else {
        let c = s[i];
        if is_whitespace(c) {
            lex_from(s, i + 1, if c == '\n' { line + 1 } else { line })
        } else if c == '"' || c == '`' {
            let e = quoted_end(s, i + 1, c);
            proof {
                lemma_quoted_end(s, i + 1, c);
            }
            let kind = if c == '"' { TokenType::String } else { TokenType::FString };
            cons_token(spec_token(kind, s.subrange(i + 1, e), line), lex_from(s, e + 1, line))
        } else if is_digit(c) {
            let e1 = digits_end(s, i);
            proof {
                lemma_digits_end(s, i);
            }
            if e1 >= s.len() {
                Err(LexError::NumberAtEndOfInput { line: line as u32 })
            } else {
                let e2 = if s[e1] == '.' { digits_end(s, e1 + 1) } else { e1 };
                proof {
                    lemma_digits_end(s, e1 + 1);
                }
                cons_token(spec_token(TokenType::Number, s.subrange(i, e2), line), lex_from(s, e2, line))
            }
        } else if is_ident_char(c) {
            let e = ident_end(s, i);
            proof {
                lemma_ident_end(s, i);
            }
            cons_token(spec_token(TokenType::Identifier, s.subrange(i, e), line), lex_from(s, e, line))
        } else if is_single_symbol(c) {
            cons_token(spec_token(TokenType::Symbol, seq![c], line), lex_from(s, i + 1, line))
        } else if c == ':' && i + 1 < s.len() && s[i + 1] == ':' {
            cons_token(spec_token(TokenType::Symbol, seq![':', ':'], line), lex_from(s, i + 2, line))
        } else if c == '/' && i + 1 < s.len() && s[i + 1] == '/' {
            proof {
                lemma_line_end(s, i + 2);
            }
            lex_from(s, line_end(s, i + 2), line)
        } else {
            Err(LexError::UnknownCharacter { character: c, line: line as u32 })
        }
    }
}

/// The tokens of a whole source text.
pub open spec fn spec_tokenize(s: Seq<char>) -> Result<Seq<SpecToken>, LexError> {
    lex_from(s, 0, 1)
}

proof fn lemma_prepend_assoc(a: Seq<SpecToken>, b: Seq<SpecToken>, r: Result<Seq<SpecToken>, LexError>)
    ensures
        prepend_tokens(a, prepend_tokens(b, r)) == prepend_tokens(a + b, r),
{
    match r {
        Ok(us) => {
            assert(a + (b + us) =~= (a + b) + us);
        },
        Err(_) => {},
    }
}

fn scan_quoted(chars: &Vec<char>, j: usize, q: char) -> (e: usize)
    requires
        1 <= j <= chars@.len(),
    ensures
        e == quoted_end(chars@, j as int, q),
{
    let n = chars.len();
    let mut k = j;
    while k < n && (chars[k] != q || chars[k - 1] == '\\')
        invariant
            1 <= j <= k <= n == chars@.len(),
            quoted_end(chars@, k as int, q) == quoted_end(chars@, j as int, q),
        decreases n - k,
    {
        k += 1;
    }
    k
}

fn scan_digits(chars: &Vec<char>, j: usize) -> (e: usize)
    requires
        j <= chars@.len(),
    ensures
        e == digits_end(chars@, j as int),
{
    let n = chars.len();
    let mut k = j;
    while k < n && '0' <= chars[k] && chars[k] <= '9'
        invariant
            j <= k <= n == chars@.len(),
            digits_end(chars@, k as int) == digits_end(chars@, j as int),
        decreases n - k,
    {
        k += 1;
    }
    k
}

fn ident_char(c: char) -> (r: bool)
    ensures
        r == is_ident_char(c),
{
    ('0' <= c && c <= '9') || ('a' <= c && c <= 'z') || ('A' <= c && c <= 'Z') || c == '_'
}

fn scan_ident(chars: &Vec<char>, j: usize) -> (e: usize)
    requires
        j <= chars@.len(),
    ensures
        e == ident_end(chars@, j as int),
{
    let n = chars.len();
    let mut k = j;
    while k < n && ident_char(chars[k])
        invariant
            j <= k <= n == chars@.len(),
            ident_end(chars@, k as int) == ident_end(chars@, j as int),
        decreases n - k,
    {
        k += 1;
    }
    k
}

fn scan_line(chars: &Vec<char>, j: usize) -> (e: usize)
    requires
        j <= chars@.len(),
    ensures
        e == line_end(chars@, j as int),
{
    let n = chars.len();
    let mut k = j;
    while k < n && chars[k] != '\n'
        invariant
            j <= k <= n == chars@.len(),
            line_end(chars@, k as int) == line_end(chars@, j as int),
        decreases n - k,
    {
        k += 1;
    }
    k
}

fn single_symbol(c: char) -> (r: bool)
    ensures
        r == is_single_symbol(c),
{
    c == ';' || c == '{' || c == '}' || c == '(' || c == ')' || c == '[' || c == ']' || c == '<'
        || c == '>' || c == ',' || c == '.' || c == '=' || c == '!'
}

/// Splits a source text into tokens.
///
/// The result is exactly `spec_tokenize(content@)`: the tokens in order, each
/// with its kind, its text and its line, or the first reason the text cannot
/// be split.
pub fn tokenize(content: String) -> (r: Result<Vec<Token>, LexError>)
    requires
        content@.len() < 0xffff_fff0,
    ensures
        match spec_tokenize(content@) {
            Ok(ts) => r matches Ok(v) && tokens_view(v@) == ts,
            Err(e) => r == Err::<Vec<Token>, LexError>(e),
        },
        r matches Ok(v) ==> v@.len() <= content@.len(),
{
    let chars = to_chars(content.as_str());
    let ghost s = chars@;
    let n = chars.len();
    let mut tokens: Vec<Token> = Vec::new();
    let mut i: usize = 0;
    let mut line: u32 = 1;
    assert(tokens_view(tokens@) =~= seq![]);
    while i < n
        invariant
            s == chars@,
            s == content@,
            n == s.len(),
            n < 0xffff_fff0,
            i <= n + 1,
            1 <= line <= i + 1,
            tokens@.len() <= i,
            tokens@.len() <= n,
            spec_tokenize(s) == prepend_tokens(tokens_view(tokens@), lex_from(s, i as int, line as nat)),
        decreases n + 1 - i,
    {
        let c = chars[i];
        let ghost before = tokens_view(tokens@);
        if c == ' ' || c == '\t' || c == '\n' || c == '\x0C' || c == '\r' {
            if c == '\n' {
                line += 1;
            }
            i += 1;
        } else if c == '"' || c == '`' {
            let start = i;
            let e = scan_quoted(&chars, i + 1, c);
            proof {
                lemma_quoted_end(s, start + 1, c);
            }
            let kind = if c == '"' { TokenType::String } else { TokenType::FString };
            let value = substring(&chars, start + 1, e);
            let t = Token { kind, value, line };
            tokens.push(t);
            i = e + 1;
            proof {
                assert(tokens_view(tokens@) =~= before + seq![t@]);
                lemma_prepend_assoc(before, seq![t@], lex_from(s, i as int, line as nat));
            }
        } else if '0' <= c && c <= '9' {
            let start = i;
            let e1 = scan_digits(&chars, i);
            proof {
                lemma_digits_end(s, start as int);
            }
            if e1 >= n {
                return Err(LexError::NumberAtEndOfInput { line });
            }
            let e2 = if chars[e1] == '.' {
                proof {
                    lemma_digits_end(s, e1 + 1);
                }
                scan_digits(&chars, e1 + 1)
            } else {
                e1
            };
            let value = substring(&chars, start, e2);
            let t = Token { kind: TokenType::Number, value, line };
            tokens.push(t);
            i = e2;
            proof {
                assert(tokens_view(tokens@) =~= before + seq![t@]);
                lemma_prepend_assoc(before, seq![t@], lex_from(s, i as int, line as nat));
            }
        } else if ident_char(c) {
            let start = i;
            let e = scan_ident(&chars, i);
            proof {
                lemma_ident_end(s, start as int);
            }
            let value = substring(&chars, start, e);
            let t = Token { kind: TokenType::Identifier, value, line };
            tokens.push(t);
            i = e;
            proof {
                assert(tokens_view(tokens@) =~= before + seq![t@]);
                lemma_prepend_assoc(before, seq![t@], lex_from(s, i as int, line as nat));
            }
        } else if single_symbol(c) {
            let value = substring(&chars, i, i + 1);
            let t = Token { kind: TokenType::Symbol, value, line };
            assert(t@.value =~= seq![c]);
            tokens.push(t);
            i += 1;
            proof {
                assert(tokens_view(tokens@) =~= before + seq![t@]);
                lemma_prepend_assoc(before, seq![t@], lex_from(s, i as int, line as nat));
            }
        } else if c == ':' && i + 1 < n && chars[i + 1] == ':' {
            let value = substring(&chars, i, i + 2);
            let t = Token { kind: TokenType::Symbol, value, line };
            assert(t@.value =~= seq![':', ':']);
            tokens.push(t);
            i += 2;
            proof {
                assert(tokens_view(tokens@) =~= before + seq![t@]);
                lemma_prepend_assoc(before, seq![t@], lex_from(s, i as int, line as nat));
            }
        } else if c == '/' && i + 1 < n && chars[i + 1] == '/' {
            proof {
                lemma_line_end(s, i + 2);
            }
            i = scan_line(&chars, i + 2);
        } else {
            return Err(LexError::UnknownCharacter { character: c, line });
        }
    }
    assert(lex_from(s, i as int, line as nat) == Ok::<Seq<SpecToken>, LexError>(seq![]));
    assert(tokens_view(tokens@) + seq![] =~= tokens_view(tokens@));
    Ok(tokens)
}

} // verus!
