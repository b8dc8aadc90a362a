//! The lexer: source text to tokens. At each position white space and
//! `//` comments are skipped, and otherwise the longest token that matches
//! is taken, a keyword winning over an identifier of the same length.
use vstd::prelude::*;
use crate::diagnostics::{lexer_error_message, lexer_error_text};
use crate::runtime::{alphabetic, alphanumeric, char_is_alphabetic, char_is_alphanumeric};
use crate::text::{chars_of, decimal, law_decimal_reads_back, push_char, string_of};
use vstd::utf8::{encode_scalar, encode_utf8};

verus! {

/// The tokens of Cx.
#[derive(Debug, PartialEq, Clone)]
pub enum Token {
    LineComment,
    KeywordLet,
    KeywordPrint,
    KeywordPrintInline,
    KeywordFnc,
    KeywordReturn,
    KeywordTrue,
    KeywordFalse,
    TypeT8,
    TypeT16,
    TypeT32,
    TypeT64,
    TypeT128,
    TypeBool,
    TypeStr,
    TypeChar,
    /// A string literal, escapes resolved.
    LiteralString(String),
    /// A float literal as written: digits, a point, digits.
    LiteralFloat(String),
    LiteralInt(u128),
    LiteralChar(char),
    Identifier(String),
    OpAdd,
    OpSub,
    OpMul,
    OpDiv,
    OpMod,
    OpEqualEqual,
    OpGreaterThan,
    OpLessThan,
    OpAssign,
    PunctArrow,
    PunctColon,
    PunctSemicolon,
    PunctComma,
    PunctDot,
    PunctParenOpen,
    PunctParenClose,
    PunctBraceOpen,
    PunctBraceClose,
    EndOfFile,
}

/// A lexing or parsing error: a message and the byte position it refers
/// to.
pub struct ParseError {
    pub msg: String,
    pub pos: usize,
}

/// A token and the bytes of the source it covers.
#[derive(Debug)]
pub struct Tok {
    pub kind: Token,
    pub span: std::ops::Range<usize>,
}

/// A token with its text payloads as sequences.
pub enum TokenModel {
    Str(Seq<char>),
    Float(Seq<char>),
    Int(u128),
    Char(char),
    Ident(Seq<char>),
    Other(Token),
}

pub open spec fn token_model(t: Token) -> TokenModel {
    match t {
        Token::LiteralString(s) => TokenModel::Str(s@),
        Token::LiteralFloat(s) => TokenModel::Float(s@),
        Token::LiteralInt(n) => TokenModel::Int(n),
        Token::LiteralChar(c) => TokenModel::Char(c),
        Token::Identifier(s) => TokenModel::Ident(s@),
        _ => TokenModel::Other(t),
    }
}

// ── Characters ───────────────────────────────────────────────────────────────

/// The white space the lexer skips.
pub open spec fn is_skip_space(c: char) -> bool {
    c == ' ' || c == '\t' || c == '\r' || c == '\n' || c == '\u{c}'
}

pub open spec fn is_digit(c: char) -> bool {
    '0' <= c <= '9'
}

pub open spec fn ident_start(c: char) -> bool {
    c == '_' || alphabetic(c)
}

pub open spec fn ident_char(c: char) -> bool {
    c == '_' || alphanumeric(c)
}

/// How many bytes UTF-8 takes for `c`.
pub open spec fn utf8_width(c: char) -> nat {
    let u = c as u32;
    if u < 0x80 {
        1
    } else if u < 0x800 {
        2
    } else if u < 0x10000 {
        3
    } else {
        4
    }
}

/// How many bytes the characters `a..b` take.
pub open spec fn bytes_between(cs: Seq<char>, a: int, b: int) -> nat
    decreases b - a,
{
    if b <= a || a < 0 || b > cs.len() {
        0
    } else {
        bytes_between(cs, a, b - 1) + utf8_width(cs[b - 1])
    }
}

/// The end of the run of characters satisfying `p` that starts at `i`.
pub open spec fn run_end(cs: Seq<char>, i: int, p: spec_fn(char) -> bool) -> int
    decreases cs.len() - i,
{
    if i < 0 || i >= cs.len() || !p(cs[i]) {
        i
    } else {
        run_end(cs, i + 1, p)
    }
}

pub proof fn lemma_run_end(cs: Seq<char>, i: int, p: spec_fn(char) -> bool)
    requires
        0 <= i <= cs.len(),
    ensures
        i <= run_end(cs, i, p) <= cs.len(),
        forall|k: int| i <= k < run_end(cs, i, p) ==> p(cs[k]),
        run_end(cs, i, p) < cs.len() ==> !p(cs[run_end(cs, i, p)]),
    decreases cs.len() - i,
{
    if i < cs.len() && p(cs[i]) {
        lemma_run_end(cs, i + 1, p);
    }
}

// ── Literals ─────────────────────────────────────────────────────────────────

/// A string literal's body with its escapes resolved: `\n`, `\r`, `\t`,
/// `\\`, `\"` and `\0` stand for one character; any other escape, and a
/// final lone backslash, is kept as written.
pub open spec fn unescape(s: Seq<char>) -> Seq<char>
    decreases s.len(),
{
    if s.len() == 0 {
        Seq::empty()
    } else if s[0] == '\\' {
        if s.len() == 1 {
            seq!['\\']
        } else {
            let c = s[1];
            let out = if c == 'n' {
                seq!['\n']
            } else if c == 'r' {
                seq!['\r']
            } else if c == 't' {
                seq!['\t']
            } else if c == '\\' {
                seq!['\\']
            } else if c == '"' {
                seq!['"']
            } else if c == '0' {
                seq!['\0']
            } else {
                seq!['\\', c]
            };
            out + unescape(s.skip(2))
        }
    } else {
        seq![s[0]] + unescape(s.skip(1))
    }
}

/// Where a string literal whose body starts at `j` ends: `(true, k)` with
/// its closing quote at `k`, or `(false, k)` where reading stopped (the
/// end, or just after a backslash before a newline or the end).
pub open spec fn string_end(cs: Seq<char>, j: int) -> (bool, int)
    decreases cs.len() - j,
{
    if j < 0 || j >= cs.len() {
        (false, cs.len() as int)
    } else if cs[j] == '"' {
        (true, j)
    } else if cs[j] == '\\' {
        if j + 1 < cs.len() && cs[j + 1] != '\n' {
            string_end(cs, j + 2)
        } else {
            (false, j + 1)
        }
    } else {
        string_end(cs, j + 1)
    }
}

pub proof fn lemma_string_end(cs: Seq<char>, j: int)
    requires
        0 <= j <= cs.len(),
    ensures
        j <= string_end(cs, j).1 <= cs.len(),
        string_end(cs, j).0 ==> string_end(cs, j).1 < cs.len(),
    decreases cs.len() - j,
{
    if j < cs.len() && cs[j] != '"' {
        if cs[j] == '\\' {
            if j + 1 < cs.len() && cs[j + 1] != '\n' {
                lemma_string_end(cs, j + 2);
            }
        } else {
            lemma_string_end(cs, j + 1);
        }
    }
}

/// The character a character literal's escape stands for.
pub open spec fn char_escape(c: char) -> char {
    if c == 'n' {
        '\n'
    } else if c == 'r' {
        '\r'
    } else if c == 't' {
        '\t'
    } else if c == '0' {
        '\0'
    } else {
        c
    }
}

/// The value of a run of decimal digits.
pub open spec fn digits_value(s: Seq<char>) -> nat
    decreases s.len(),
{
    if s.len() == 0 {
        0
    } else {
        digits_value(s.drop_last()) * 10 + (s.last() as nat - '0' as nat) as nat
    }
}

/// The token a word spells, if it is a keyword or a type name.
pub open spec fn keyword(w: Seq<char>) -> Option<Token> {
    if w == seq!['l', 'e', 't'] {
        Some(Token::KeywordLet)
    } else if w == seq!['p', 'r', 'i', 'n', 't'] {
        Some(Token::KeywordPrint)
    } else if w == seq!['f', 'n', 'c'] {
        Some(Token::KeywordFnc)
    } else if w == seq!['r', 'e', 't', 'u', 'r', 'n'] {
        Some(Token::KeywordReturn)
    } else if w == seq!['t', 'r', 'u', 'e'] {
        Some(Token::KeywordTrue)
    } else if w == seq!['f', 'a', 'l', 's', 'e'] {
        Some(Token::KeywordFalse)
    } else if w == seq!['t', '8'] {
        Some(Token::TypeT8)
    } else if w == seq!['t', '1', '6'] {
        Some(Token::TypeT16)
    } else if w == seq!['t', '3', '2'] {
        Some(Token::TypeT32)
    } else if w == seq!['t', '6', '4'] {
        Some(Token::TypeT64)
    } else if w == seq!['t', '1', '2', '8'] {
        Some(Token::TypeT128)
    } else if w == seq!['b', 'o', 'o', 'l'] {
        Some(Token::TypeBool)
    } else if w == seq!['s', 't', 'r'] {
        Some(Token::TypeStr)
    } else if w == seq!['c', 'h', 'a', 'r'] {
        Some(Token::TypeChar)
    } else {
        None
    }
}

/// The operator or punctuation token a character starts, with its length
/// in characters, given the character after it (if any).
pub open spec fn symbol(c: char, next: Option<char>) -> Option<(Token, nat)> {
    if c == '+' {
        Some((Token::OpAdd, 1))
    } else if c == '-' {
        if next == Some('>') {
            Some((Token::PunctArrow, 2))
        } else {
            Some((Token::OpSub, 1))
        }
    } else if c == '*' {
        Some((Token::OpMul, 1))
    } else if c == '/' {
        Some((Token::OpDiv, 1))
    } else if c == '%' {
        Some((Token::OpMod, 1))
    } else if c == '=' {
        if next == Some('=') {
            Some((Token::OpEqualEqual, 2))
        } else {
            Some((Token::OpAssign, 1))
        }
    } else if c == '>' {
        Some((Token::OpGreaterThan, 1))
    } else if c == '<' {
        Some((Token::OpLessThan, 1))
    } else if c == ':' {
        Some((Token::PunctColon, 1))
    } else if c == ';' {
        Some((Token::PunctSemicolon, 1))
    } else if c == ',' {
        Some((Token::PunctComma, 1))
    } else if c == '.' {
        Some((Token::PunctDot, 1))
    } else if c == '(' {
        Some((Token::PunctParenOpen, 1))
    } else if c == ')' {
        Some((Token::PunctParenClose, 1))
    } else if c == '{' {
        Some((Token::PunctBraceOpen, 1))
    } else if c == '}' {
        Some((Token::PunctBraceClose, 1))
    } else {
        None
    }
}

// ── One step ─────────────────────────────────────────────────────────────────

/// What the lexer does at a position: skip characters, take a token of the
/// given length, or fail after reading the given number of characters.
pub enum Step {
    Skip(nat),
    Take(TokenModel, nat),
    Fail(nat),
}

pub open spec fn next_char(cs: Seq<char>, k: int) -> Option<char> {
    if 0 <= k < cs.len() {
        Some(cs[k])
    } else {
        None
    }
}

/// The lexer's step at position `i` (which must be in the text).
pub open spec fn step_at(cs: Seq<char>, i: int) -> Step {
    let c = cs[i];
    if is_skip_space(c) {
        Step::Skip((run_end(cs, i, |x: char| is_skip_space(x)) - i) as nat)
    } else if c == '/' && next_char(cs, i + 1) == Some('/') {
        Step::Skip((run_end(cs, i + 2, |x: char| x != '\r' && x != '\n') - i) as nat)
    } else if c == '"' {
        let (closed, k) = string_end(cs, i + 1);
        if closed {
            Step::Take(TokenModel::Str(unescape(cs.subrange(i + 1, k))), (k + 1 - i) as nat)
        } else {
            Step::Fail((k - i) as nat)
        }
    } else if c == '\'' {
        if i + 1 >= cs.len() {
            Step::Fail(1)
        } else if cs[i + 1] == '\'' {
            Step::Fail(1)
        } else if cs[i + 1] == '\\' {
            if i + 2 >= cs.len() || cs[i + 2] == '\n' {
                Step::Fail(2)
            } else if next_char(cs, i + 3) == Some('\'') {
                Step::Take(TokenModel::Char(char_escape(cs[i + 2])), 4)
            } else {
                Step::Fail(3)
            }
        } else if next_char(cs, i + 2) == Some('\'') {
            Step::Take(TokenModel::Char(cs[i + 1]), 3)
        } else {
            Step::Fail(2)
        }
    } else if is_digit(c) {
        let d = run_end(cs, i, |x: char| is_digit(x));
        if next_char(cs, d) == Some('.') && d + 1 < cs.len() && is_digit(cs[d + 1]) {
            let f = run_end(cs, d + 1, |x: char| is_digit(x));
            Step::Take(TokenModel::Float(cs.subrange(i, f)), (f - i) as nat)
        } else if digits_value(cs.subrange(i, d)) <= u128::MAX {
            Step::Take(TokenModel::Int(digits_value(cs.subrange(i, d)) as u128), (d - i) as nat)
        } else {
            Step::Fail((d - i) as nat)
        }
    } else if ident_start(c) {
        let w = run_end(cs, i + 1, |x: char| ident_char(x));
        let word = cs.subrange(i, w);
        if word == seq!['p', 'r', 'i', 'n', 't'] && next_char(cs, w) == Some('!') {
            Step::Take(TokenModel::Other(Token::KeywordPrintInline), 6)
        } else {
            match keyword(word) {
                Some(t) => Step::Take(TokenModel::Other(t), word.len()),
                None => Step::Take(TokenModel::Ident(word), word.len()),
            }
        }
    } else {
        match symbol(c, next_char(cs, i + 1)) {
            Some((t, n)) => Step::Take(TokenModel::Other(t), n),
            None => Step::Fail(1),
        }
    }
}

/// The steps never go backwards and never past the end.
pub proof fn lemma_step_at(cs: Seq<char>, i: int)
    requires
        0 <= i < cs.len(),
    ensures
        match step_at(cs, i) {
            Step::Skip(n) => 1 <= n && i + n <= cs.len(),
            Step::Take(_, n) => 1 <= n && i + n <= cs.len(),
            Step::Fail(n) => 1 <= n && i + n <= cs.len(),
        },
{
    let c = cs[i];
    lemma_run_end(cs, i, |x: char| is_skip_space(x));
    if i + 2 <= cs.len() {
        lemma_run_end(cs, i + 2, |x: char| x != '\r' && x != '\n');
    }
    lemma_string_end(cs, i + 1);
    lemma_run_end(cs, i, |x: char| is_digit(x));
    let d = run_end(cs, i, |x: char| is_digit(x));
    if d + 1 <= cs.len() {
        lemma_run_end(cs, d + 1, |x: char| is_digit(x));
    }
    lemma_run_end(cs, i + 1, |x: char| ident_char(x));
}

// ── The whole text ───────────────────────────────────────────────────────────

/// A token and its byte span.
pub struct TokModel {
    pub kind: TokenModel,
    pub start: int,
    pub end: int,
}

/// The tokens of the text from position `i` (at byte `off`), or the first
/// failure: the characters read and the byte position where it started.
pub open spec fn lex_from(cs: Seq<char>, i: int, off: int) -> Result<Seq<TokModel>, (Seq<char>, int)>
    decreases cs.len() - i,
{
    if i < 0 || i >= cs.len() {
        Ok(Seq::empty())
    } else {
        proof {
            lemma_step_at(cs, i);
        }
        match step_at(cs, i) {
            Step::Skip(n) => lex_from(cs, i + n, off + bytes_between(cs, i, i + n)),
            Step::Take(t, n) => {
                let end = off + bytes_between(cs, i, i + n);
                match lex_from(cs, i + n, end) {
                    Ok(rest) => Ok(seq![TokModel { kind: t, start: off, end }] + rest),
                    Err(e) => Err(e),
                }
            },
            Step::Fail(n) => Err((cs.subrange(i, i + n), off)),
        }
    }
}

pub open spec fn tok_view(t: Tok) -> TokModel {
    TokModel { kind: token_model(t.kind), start: t.span.start as int, end: t.span.end as int }
}

pub open spec fn toks_view(s: Seq<Tok>) -> Seq<TokModel> {
    s.map_values(|t: Tok| tok_view(t))
}

/// The outcome of lexing a text: its tokens, or the error message and
/// position of the first failure.
pub open spec fn lex_outcome(cs: Seq<char>) -> Result<Seq<TokModel>, (Seq<char>, int)> {
    match lex_from(cs, 0, 0) {
        Ok(ts) => Ok(ts),
        Err((slice, pos)) => Err((lexer_error_text(slice), pos)),
    }
}


// ── Executable lexer ─────────────────────────────────────────────────────────

pub proof fn lemma_bytes_split(cs: Seq<char>, a: int, b: int, c: int)
    requires
        0 <= a <= b <= c <= cs.len(),
    ensures
        bytes_between(cs, a, c) == bytes_between(cs, a, b) + bytes_between(cs, b, c),
    decreases c - b,
{
    if b < c {
        lemma_bytes_split(cs, a, b, c - 1);
    }
}

fn utf8_width_of(c: char) -> (n: usize)
    ensures
        n == utf8_width(c),
{
    let u = c as u32;
    if u < 0x80 {
        1
    } else if u < 0x800 {
        2
    } else if u < 0x10000 {
        3
    } else {
        4
    }
}

/// How many bytes the characters `a..b` take.
fn bytes_of(cs: &Vec<char>, a: usize, b: usize) -> (n: usize)
    requires
        a <= b <= cs@.len(),
        bytes_between(cs@, 0, b as int) <= usize::MAX,
    ensures
        n == bytes_between(cs@, a as int, b as int),
{
    proof {
        lemma_bytes_split(cs@, 0, a as int, b as int);
    }
    let mut n: usize = 0;
    let mut k = a;
    while k < b
        invariant
            a <= k <= b <= cs@.len(),
            n == bytes_between(cs@, a as int, k as int),
            bytes_between(cs@, a as int, b as int) <= usize::MAX,
        decreases b - k,
    {
        proof {
            lemma_bytes_split(cs@, a as int, k + 1, b as int);
        }
        n = n + utf8_width_of(cs[k]);
        k = k + 1;
    }
    n
}

/// The body `a..b` of a string literal, escapes resolved (see
/// [`unescape`]).
fn unescape_chars(cs: &Vec<char>, a: usize, b: usize) -> (s: String)
    requires
        a <= b <= cs@.len(),
    ensures
        s@ == unescape(cs@.subrange(a as int, b as int)),
{
    let mut out = String::new();
    let mut k = a;
    while k < b
        invariant
            a <= k <= b <= cs@.len(),
            out@ + unescape(cs@.subrange(k as int, b as int)) == unescape(cs@.subrange(a as int, b as int)),
        decreases b - k,
    {
        let ghost rest = cs@.subrange(k as int, b as int);
        let c = cs[k];
        if c == '\\' {
            if k + 1 == b {
                push_char(&mut out, '\\');
                proof {
                    assert(cs@.subrange(b as int, b as int) =~= Seq::<char>::empty());
                    assert(unescape(rest) == seq!['\\']);
                    assert(out@ + unescape(cs@.subrange(b as int, b as int)) =~= out@);
                }
                k = b;
            } else {
                let e = cs[k + 1];
                let ghost before = out@;
                if e == 'n' {
                    push_char(&mut out, '\n');
                } else if e == 'r' {
                    push_char(&mut out, '\r');
                } else if e == 't' {
                    push_char(&mut out, '\t');
                } else if e == '\\' {
                    push_char(&mut out, '\\');
                } else if e == '"' {
                    push_char(&mut out, '"');
                } else if e == '0' {
                    push_char(&mut out, '\0');
                } else {
                    push_char(&mut out, '\\');
                    push_char(&mut out, e);
                }
                proof {
                    assert(rest.skip(2) =~= cs@.subrange(k + 2, b as int));
                    assert(rest[1] == e);
                    let piece = if e == 'n' {
                        seq!['\n']
                    } else if e == 'r' {
                        seq!['\r']
                    } else if e == 't' {
                        seq!['\t']
                    } else if e == '\\' {
                        seq!['\\']
                    } else if e == '"' {
                        seq!['"']
                    } else if e == '0' {
                        seq!['\0']
                    } else {
                        seq!['\\', e]
                    };
                    assert(unescape(rest) == piece + unescape(cs@.subrange(k + 2, b as int)));
                    assert(out@ =~= before + piece);
                    assert(out@ + unescape(cs@.subrange(k + 2, b as int)) =~= before + unescape(rest));
                }
                k = k + 2;
            }
        } else {
            let ghost before = out@;
            push_char(&mut out, c);
            proof {
                assert(rest.skip(1) =~= cs@.subrange(k + 1, b as int));
                assert(unescape(rest) == seq![c] + unescape(cs@.subrange(k + 1, b as int)));
                assert(out@ + unescape(cs@.subrange(k + 1, b as int)) =~= before + unescape(rest));
            }
            k = k + 1;
        }
    }
    proof {
        assert(cs@.subrange(b as int, b as int) =~= Seq::<char>::empty());
        assert(out@ + unescape(cs@.subrange(b as int, b as int)) =~= out@);
    }
    out
}

/// A string literal's body with its escapes resolved (see [`unescape`]).
pub fn unescape_string(s: &str) -> (r: String)
    ensures
        r@ == unescape(s@),
{
    let cs = chars_of(s);
    proof {
        assert(cs@.subrange(0, cs@.len() as int) =~= cs@);
    }
    unescape_chars(&cs, 0, cs.len())
}


/// The bytes of a text's UTF-8 encoding are the widths of its characters.
proof fn lemma_bytes_shift(cs: Seq<char>, b: int)
    requires
        1 <= b <= cs.len(),
    ensures
        bytes_between(cs, 1, b) == bytes_between(cs.drop_first(), 0, b - 1),
    decreases b,
{
    if b > 1 {
        lemma_bytes_shift(cs, b - 1);
        assert(cs.drop_first()[b - 2] == cs[b - 1]);
    }
}

proof fn lemma_encoded_len(cs: Seq<char>)
    ensures
        encode_utf8(cs).len() == bytes_between(cs, 0, cs.len() as int),
    decreases cs.len(),
{
    if cs.len() > 0 {
        lemma_encoded_len(cs.drop_first());
        lemma_bytes_split(cs, 0, 1, cs.len() as int);
        lemma_bytes_shift(cs, cs.len() as int);
        vstd::utf8::char_is_scalar(cs[0]);
        assert(bytes_between(cs, 0, 0) == 0);
        assert(bytes_between(cs, 0, 1) == utf8_width(cs[0]));
        assert(encode_scalar(cs[0] as u32).len() == utf8_width(cs[0]));
    }
}

fn is_skip_space_exec(c: char) -> (r: bool)
    ensures
        r == is_skip_space(c),
{
    c == ' ' || c == '\t' || c == '\r' || c == '\n' || c == '\u{c}'
}

fn is_digit_exec(c: char) -> (r: bool)
    ensures
        r == is_digit(c),
{
    '0' <= c && c <= '9'
}

fn ident_start_exec(c: char) -> (r: bool)
    ensures
        r == ident_start(c),
{
    c == '_' || char_is_alphabetic(c)
}

fn ident_char_exec(c: char) -> (r: bool)
    ensures
        r == ident_char(c),
{
    c == '_' || char_is_alphanumeric(c)
}

/// The end of the white space starting at `i`.
fn space_end(cs: &Vec<char>, i: usize) -> (r: usize)
    requires
        i <= cs@.len(),
    ensures
        r == run_end(cs@, i as int, |x: char| is_skip_space(x)),
{
    let mut k = i;
    while k < cs.len() && is_skip_space_exec(cs[k])
        invariant
            i <= k <= cs@.len(),
            run_end(cs@, k as int, |x: char| is_skip_space(x)) == run_end(
                cs@,
                i as int,
                |x: char| is_skip_space(x),
            ),
        decreases cs@.len() - k,
    {
        k = k + 1;
    }
    k
}

/// The end of the line starting at `i`.
fn line_end(cs: &Vec<char>, i: usize) -> (r: usize)
    requires
        i <= cs@.len(),
    ensures
        r == run_end(cs@, i as int, |x: char| x != '\r' && x != '\n'),
{
    let mut k = i;
    while k < cs.len() && cs[k] != '\r' && cs[k] != '\n'
        invariant
            i <= k <= cs@.len(),
            run_end(cs@, k as int, |x: char| x != '\r' && x != '\n') == run_end(
                cs@,
                i as int,
                |x: char| x != '\r' && x != '\n',
            ),
        decreases cs@.len() - k,
    {
        k = k + 1;
    }
    k
}

/// The end of the decimal digits starting at `i`.
fn digits_end(cs: &Vec<char>, i: usize) -> (r: usize)
    requires
        i <= cs@.len(),
    ensures
        r == run_end(cs@, i as int, |x: char| is_digit(x)),
{
    let mut k = i;
    while k < cs.len() && is_digit_exec(cs[k])
        invariant
            i <= k <= cs@.len(),
            run_end(cs@, k as int, |x: char| is_digit(x)) == run_end(
                cs@,
                i as int,
                |x: char| is_digit(x),
            ),
        decreases cs@.len() - k,
    {
        k = k + 1;
    }
    k
}

/// The end of the identifier characters starting at `i`.
fn word_end(cs: &Vec<char>, i: usize) -> (r: usize)
    requires
        i <= cs@.len(),
    ensures
        r == run_end(cs@, i as int, |x: char| ident_char(x)),
{
    let mut k = i;
    while k < cs.len() && ident_char_exec(cs[k])
        invariant
            i <= k <= cs@.len(),
            run_end(cs@, k as int, |x: char| ident_char(x)) == run_end(
                cs@,
                i as int,
                |x: char| ident_char(x),
            ),
        decreases cs@.len() - k,
    {
        k = k + 1;
    }
    k
}

/// A longer run of digits is worth at least as much.
proof fn lemma_digits_grow(s: Seq<char>, k: int)
    requires
        0 <= k <= s.len(),
    ensures
        digits_value(s.take(k)) <= digits_value(s),
    decreases s.len(),
{
    if k < s.len() {
        lemma_digits_grow(s.drop_last(), k);
        assert(s.drop_last().take(k) =~= s.take(k));
    } else {
        assert(s.take(k) =~= s);
    }
}

/// The value of the digits `a..b`, or `None` where it exceeds `u128`.
fn digits_u128(cs: &Vec<char>, a: usize, b: usize) -> (r: Option<u128>)
    requires
        a <= b <= cs@.len(),
        forall|k: int| a <= k < b ==> is_digit(#[trigger] cs@[k]),
    ensures
        match r {
            Some(v) => v == digits_value(cs@.subrange(a as int, b as int)),
            None => digits_value(cs@.subrange(a as int, b as int)) > u128::MAX,
        },
{
    let mut v: u128 = 0;
    let mut k = a;
    proof {
        assert(cs@.subrange(a as int, a as int) =~= Seq::<char>::empty());
    }
    while k < b
        invariant
            a <= k <= b <= cs@.len(),
            forall|j: int| a <= j < b ==> is_digit(#[trigger] cs@[j]),
            v == digits_value(cs@.subrange(a as int, k as int)),
        decreases b - k,
    {
        let c = cs[k];
        assert(is_digit(cs@[k as int]));
        let d: u128 = (c as u32 - 48) as u128;
        proof {
            let s = cs@.subrange(a as int, k + 1);
            assert(s.drop_last() =~= cs@.subrange(a as int, k as int));
            assert(s.last() == c);
            assert(digits_value(s) == v * 10 + d);
            lemma_digits_grow(cs@.subrange(a as int, b as int), k + 1 - a);
            assert(cs@.subrange(a as int, b as int).take(k + 1 - a) =~= s);
        }
        match v.checked_mul(10) {
            Some(m) => match m.checked_add(d) {
                Some(n) => {
                    v = n;
                },
                None => {
                    return None;
                },
            },
            None => {
                return None;
            },
        }
        k = k + 1;
    }
    Some(v)
}


/// What the lexer does at one position, as the executable code reports it.
pub enum Action {
    Skip(usize),
    Take(Token, usize),
    Fail(usize),
}

pub open spec fn action_view(a: Action) -> Step {
    match a {
        Action::Skip(n) => Step::Skip(n as nat),
        Action::Take(t, n) => Step::Take(token_model(t), n as nat),
        Action::Fail(n) => Step::Fail(n as nat),
    }
}

/// Where the string literal whose body starts at `j` ends (see
/// [`string_end`]).
fn string_close(cs: &Vec<char>, j: usize) -> (r: (bool, usize))
    requires
        j <= cs@.len(),
    ensures
        r.0 == string_end(cs@, j as int).0,
        r.1 == string_end(cs@, j as int).1,
{
    let mut k = j;
    loop
        invariant
            j <= k <= cs@.len(),
            string_end(cs@, k as int) == string_end(cs@, j as int),
        decreases cs@.len() - k,
    {
        if k >= cs.len() {
            return (false, cs.len());
        }
        if cs[k] == '"' {
            return (true, k);
        }
        if cs[k] == '\\' {
            if k + 1 < cs.len() && cs[k + 1] != '\n' {
                k = k + 2;
            } else {
                return (false, k + 1);
            }
        } else {
            k = k + 1;
        }
    }
}

fn lex_string(cs: &Vec<char>, i: usize) -> (r: Action)
    requires
        i < cs@.len(),
        cs@[i as int] == '"',
    ensures
        action_view(r) == step_at(cs@, i as int),
{
    let n = cs.len();
    let (closed, k) = string_close(cs, i + 1);
    proof {
        lemma_string_end(cs@, i + 1);
    }
    if closed {
        Action::Take(Token::LiteralString(unescape_chars(cs, i + 1, k)), k + 1 - i)
    } else {
        Action::Fail(k - i)
    }
}

fn char_escape_exec(c: char) -> (r: char)
    ensures
        r == char_escape(c),
{
    if c == 'n' {
        '\n'
    } else if c == 'r' {
        '\r'
    } else if c == 't' {
        '\t'
    } else if c == '0' {
        '\0'
    } else {
        c
    }
}

fn lex_char(cs: &Vec<char>, i: usize) -> (r: Action)
    requires
        i < cs@.len(),
        cs@[i as int] == '\'',
    ensures
        action_view(r) == step_at(cs@, i as int),
{
    let n = cs.len();
    if i + 1 >= cs.len() {
        Action::Fail(1)
    } else if cs[i + 1] == '\'' {
        Action::Fail(1)
    } else if cs[i + 1] == '\\' {
        if i + 2 >= cs.len() || cs[i + 2] == '\n' {
            Action::Fail(2)
        } else if i + 3 < cs.len() && cs[i + 3] == '\'' {
            Action::Take(Token::LiteralChar(char_escape_exec(cs[i + 2])), 4)
        } else {
            Action::Fail(3)
        }
    } else if i + 2 < cs.len() && cs[i + 2] == '\'' {
        Action::Take(Token::LiteralChar(cs[i + 1]), 3)
    } else {
        Action::Fail(2)
    }
}

fn lex_number(cs: &Vec<char>, i: usize) -> (r: Action)
    requires
        i < cs@.len(),
        is_digit(cs@[i as int]),
    ensures
        action_view(r) == step_at(cs@, i as int),
{
    let d = digits_end(cs, i);
    proof {
        lemma_run_end(cs@, i as int, |x: char| is_digit(x));
    }
    if d < cs.len() && cs[d] == '.' && d + 1 < cs.len() && is_digit_exec(cs[d + 1]) {
        let f = digits_end(cs, d + 1);
        proof {
            lemma_run_end(cs@, d + 1, |x: char| is_digit(x));
        }
        Action::Take(Token::LiteralFloat(string_of(cs, i, f)), f - i)
    } else {
        match digits_u128(cs, i, d) {
            Some(v) => Action::Take(Token::LiteralInt(v), d - i),
            None => Action::Fail(d - i),
        }
    }
}

/// Whether the characters `a..b` spell `lit`.
fn span_is(cs: &Vec<char>, a: usize, b: usize, lit: &str) -> (r: bool)
    requires
        a <= b <= cs@.len(),
    ensures
        r == (cs@.subrange(a as int, b as int) == lit@),
{
    let n = lit.unicode_len();
    if b - a != n {
        return false;
    }
    let mut k: usize = 0;
    while k < n
        invariant
            k <= n,
            n == lit@.len(),
            b - a == n,
            a <= b <= cs@.len(),
            forall|j: int| 0 <= j < k ==> cs@[a + j] == lit@[j],
        decreases n - k,
    {
        if cs[a + k] != lit.get_char(k) {
            proof {
                assert(cs@.subrange(a as int, b as int)[k as int] != lit@[k as int]);
            }
            return false;
        }
        k = k + 1;
    }
    proof {
        assert(cs@.subrange(a as int, b as int) =~= lit@);
    }
    true
}

/// The keyword or type name that the characters `a..b` spell, if any.
fn keyword_of(cs: &Vec<char>, a: usize, b: usize) -> (r: Option<Token>)
    requires
        a <= b <= cs@.len(),
    ensures
        r == keyword(cs@.subrange(a as int, b as int)),
        r matches Some(t) ==> token_model(t) == TokenModel::Other(t),
{
    proof {
        reveal_strlit("let");
        assert("let"@ =~= seq!['l', 'e', 't']);
        reveal_strlit("print");
        assert("print"@ =~= seq!['p', 'r', 'i', 'n', 't']);
        reveal_strlit("fnc");
        assert("fnc"@ =~= seq!['f', 'n', 'c']);
        reveal_strlit("return");
        assert("return"@ =~= seq!['r', 'e', 't', 'u', 'r', 'n']);
        reveal_strlit("true");
        assert("true"@ =~= seq!['t', 'r', 'u', 'e']);
        reveal_strlit("false");
        assert("false"@ =~= seq!['f', 'a', 'l', 's', 'e']);
        reveal_strlit("t8");
        assert("t8"@ =~= seq!['t', '8']);
        reveal_strlit("t16");
        assert("t16"@ =~= seq!['t', '1', '6']);
        reveal_strlit("t32");
        assert("t32"@ =~= seq!['t', '3', '2']);
        reveal_strlit("t64");
        assert("t64"@ =~= seq!['t', '6', '4']);
        reveal_strlit("t128");
        assert("t128"@ =~= seq!['t', '1', '2', '8']);
        reveal_strlit("bool");
        assert("bool"@ =~= seq!['b', 'o', 'o', 'l']);
        reveal_strlit("str");
        assert("str"@ =~= seq!['s', 't', 'r']);
        reveal_strlit("char");
        assert("char"@ =~= seq!['c', 'h', 'a', 'r']);
    }
    if span_is(cs, a, b, "let") {
        Some(Token::KeywordLet)
    } else if span_is(cs, a, b, "print") {
        Some(Token::KeywordPrint)
    } else if span_is(cs, a, b, "fnc") {
        Some(Token::KeywordFnc)
    } else if span_is(cs, a, b, "return") {
        Some(Token::KeywordReturn)
    } else if span_is(cs, a, b, "true") {
        Some(Token::KeywordTrue)
    } else if span_is(cs, a, b, "false") {
        Some(Token::KeywordFalse)
    } else if span_is(cs, a, b, "t8") {
        Some(Token::TypeT8)
    } else if span_is(cs, a, b, "t16") {
        Some(Token::TypeT16)
    } else if span_is(cs, a, b, "t32") {
        Some(Token::TypeT32)
    } else if span_is(cs, a, b, "t64") {
        Some(Token::TypeT64)
    } else if span_is(cs, a, b, "t128") {
        Some(Token::TypeT128)
    } else if span_is(cs, a, b, "bool") {
        Some(Token::TypeBool)
    } else if span_is(cs, a, b, "str") {
        Some(Token::TypeStr)
    } else if span_is(cs, a, b, "char") {
        Some(Token::TypeChar)
    } else {
        None
    }
}

fn lex_word(cs: &Vec<char>, i: usize) -> (r: Action)
    requires
        i < cs@.len(),
        ident_start(cs@[i as int]),
        !is_skip_space(cs@[i as int]),
        !(cs@[i as int] == '/' && next_char(cs@, i + 1) == Some('/')),
        cs@[i as int] != '"',
        cs@[i as int] != '\'',
        !is_digit(cs@[i as int]),
    ensures
        action_view(r) == step_at(cs@, i as int),
{
    let n = cs.len();
    let w = word_end(cs, i + 1);
    proof {
        lemma_run_end(cs@, i + 1, |x: char| ident_char(x));
        reveal_strlit("print");
        assert("print"@ =~= seq!['p', 'r', 'i', 'n', 't']);
    }
    if span_is(cs, i, w, "print") && w < cs.len() && cs[w] == '!' {
        Action::Take(Token::KeywordPrintInline, 6)
    } else {
        match keyword_of(cs, i, w) {
            Some(t) => Action::Take(t, w - i),
            None => Action::Take(Token::Identifier(string_of(cs, i, w)), w - i),
        }
    }
}

/// The operator or punctuation that `c` starts (see [`symbol`]).
fn symbol_of(c: char, next: Option<char>) -> (r: Option<(Token, usize)>)
    ensures
        match r {
            Some((t, n)) => symbol(c, next) == Some((t, n as nat)) && token_model(t)
                == TokenModel::Other(t),
            None => symbol(c, next) is None,
        },
{
    if c == '+' {
        Some((Token::OpAdd, 1))
    } else if c == '-' {
        if next == Some('>') {
            Some((Token::PunctArrow, 2))
        } else {
            Some((Token::OpSub, 1))
        }
    } else if c == '*' {
        Some((Token::OpMul, 1))
    } else if c == '/' {
        Some((Token::OpDiv, 1))
    } else if c == '%' {
        Some((Token::OpMod, 1))
    } else if c == '=' {
        if next == Some('=') {
            Some((Token::OpEqualEqual, 2))
        } else {
            Some((Token::OpAssign, 1))
        }
    } else if c == '>' {
        Some((Token::OpGreaterThan, 1))
    } else if c == '<' {
        Some((Token::OpLessThan, 1))
    } else if c == ':' {
        Some((Token::PunctColon, 1))
    } else if c == ';' {
        Some((Token::PunctSemicolon, 1))
    } else if c == ',' {
        Some((Token::PunctComma, 1))
    } else if c == '.' {
        Some((Token::PunctDot, 1))
    } else if c == '(' {
        Some((Token::PunctParenOpen, 1))
    } else if c == ')' {
        Some((Token::PunctParenClose, 1))
    } else if c == '{' {
        Some((Token::PunctBraceOpen, 1))
    } else if c == '}' {
        Some((Token::PunctBraceClose, 1))
    } else {
        None
    }
}

/// The lexer's step at position `i` (see [`step_at`]).
fn step(cs: &Vec<char>, i: usize) -> (r: Action)
    requires
        i < cs@.len(),
    ensures
        action_view(r) == step_at(cs@, i as int),
{
    let n = cs.len();
    let c = cs[i];
    if is_skip_space_exec(c) {
        let e = space_end(cs, i);
        proof {
            lemma_run_end(cs@, i as int, |x: char| is_skip_space(x));
        }
        Action::Skip(e - i)
    } else if c == '/' && i + 1 < cs.len() && cs[i + 1] == '/' {
        let e = line_end(cs, i + 2);
        proof {
            lemma_run_end(cs@, i + 2, |x: char| x != '\r' && x != '\n');
        }
        Action::Skip(e - i)
    } else if c == '"' {
        lex_string(cs, i)
    } else if c == '\'' {
        lex_char(cs, i)
    } else if is_digit_exec(c) {
        lex_number(cs, i)
    } else if ident_start_exec(c) {
        lex_word(cs, i)
    } else {
        let next = if i + 1 < cs.len() {
            Some(cs[i + 1])
        } else {
            None
        };
        match symbol_of(c, next) {
            Some((t, n)) => Action::Take(t, n),
            None => Action::Fail(1),
        }
    }
}


/// The tokens already collected followed by the outcome of the rest.
pub open spec fn after(done: Seq<TokModel>, rest: Result<Seq<TokModel>, (Seq<char>, int)>) -> Result<
    Seq<TokModel>,
    (Seq<char>, int),
> {
    match rest {
        Ok(ts) => Ok(done + ts),
        Err(e) => Err(e),
    }
}

pub open spec fn outcome_view(r: Result<Vec<Tok>, ParseError>) -> Result<
    Seq<TokModel>,
    (Seq<char>, int),
> {
    match r {
        Ok(v) => Ok(toks_view(v@)),
        Err(e) => Err((e.msg@, e.pos as int)),
    }
}

/// Lex a whole text: its tokens with their byte spans, or the error for
/// the first thing that is no token, at the byte where it starts.
pub fn tok_collector(input: &str) -> (r: Result<Vec<Tok>, ParseError>)
    ensures
        outcome_view(r) == lex_outcome(input@),
{
    let cs = chars_of(input);
    let total = input.as_bytes().len();
    proof {
        lemma_encoded_len(cs@);
    }
    let mut out: Vec<Tok> = Vec::new();
    let mut i: usize = 0;
    let mut off: usize = 0;
    proof {
        assert(toks_view(out@) =~= Seq::<TokModel>::empty());
        assert(after(toks_view(out@), lex_from(cs@, 0, 0)) == lex_from(cs@, 0, 0)) by {
            match lex_from(cs@, 0, 0) {
                Ok(ts) => {
                    assert(Seq::<TokModel>::empty() + ts =~= ts);
                },
                Err(e) => {},
            }
        }
    }
    while i < cs.len()
        invariant
            i <= cs@.len(),
            cs@ == input@,
            total == bytes_between(cs@, 0, cs@.len() as int),
            off == bytes_between(cs@, 0, i as int),
            after(toks_view(out@), lex_from(cs@, i as int, off as int)) == lex_from(cs@, 0, 0),
        decreases cs@.len() - i,
    {
        proof {
            lemma_step_at(cs@, i as int);
        }
        let a = step(&cs, i);
        let n = match a {
            Action::Skip(n) => n,
            Action::Take(_, n) => n,
            Action::Fail(n) => n,
        };
        proof {
            lemma_bytes_split(cs@, 0, i + n, cs@.len() as int);
            lemma_bytes_split(cs@, 0, i as int, i + n);
        }
        match a {
            Action::Skip(_) => {
                off = off + bytes_of(&cs, i, i + n);
                i = i + n;
            },
            Action::Take(t, _) => {
                let end = off + bytes_of(&cs, i, i + n);
                let ghost before = toks_view(out@);
                let tok = Tok { kind: t, span: off..end };
                out.push(tok);
                proof {
                    assert(toks_view(out@) =~= before.push(tok_view(tok)));
                    match lex_from(cs@, i + n, end as int) {
                        Ok(rest) => {
                            assert(before + (seq![tok_view(tok)] + rest) =~= before.push(
                                tok_view(tok),
                            ) + rest);
                        },
                        Err(e) => {},
                    }
                }
                off = end;
                i = i + n;
            },
            Action::Fail(_) => {
                let slice = string_of(&cs, i, i + n);
                let msg = lexer_error_message(slice.as_str());
                return Err(ParseError { msg, pos: off });
            },
        }
    }
    proof {
        assert(toks_view(out@) + Seq::<TokModel>::empty() =~= toks_view(out@));
    }
    Ok(out)
}


// ── Words that name a token ──────────────────────────────────────────────────

/// The token a whole word names by the fixed table of keywords, type
/// names and operators (braces are not in it); `None` for any other word.
pub open spec fn fixed_token(w: Seq<char>) -> Option<Token> {
    if w == seq!['p', 'r', 'i', 'n', 't', '!'] {
        Some(Token::KeywordPrintInline)
    } else if keyword(w) is Some {
        keyword(w)
    } else if 1 <= w.len() <= 2 && w[0] != '{' && w[0] != '}' {
        match symbol(w[0], next_char(w, 1)) {
            Some((t, n)) => if n == w.len() {
                Some(t)
            } else {
                None
            },
            None => None,
        }
    } else {
        None
    }
}

/// The token a whole word names by the fixed table (see [`fixed_token`]).
pub fn fixed_token_of(word: &str) -> (r: Option<Token>)
    ensures
        r == fixed_token(word@),
{
    let cs = chars_of(word);
    let n = cs.len();
    proof {
        assert(cs@.subrange(0, n as int) =~= cs@);
        reveal_strlit("print!");
        assert("print!"@ =~= seq!['p', 'r', 'i', 'n', 't', '!']);
    }
    if span_is(&cs, 0, n, "print!") {
        return Some(Token::KeywordPrintInline);
    }
    match keyword_of(&cs, 0, n) {
        Some(t) => Some(t),
        None => {
            if 1 <= n && n <= 2 && cs[0] != '{' && cs[0] != '}' {
                let next = if n == 2 {
                    Some(cs[1])
                } else {
                    None
                };
                match symbol_of(cs[0], next) {
                    Some((t, k)) => if k == n {
                        Some(t)
                    } else {
                        None
                    },
                    None => None,
                }
            } else {
                None
            }
        },
    }
}

/// Whether a word is a non-empty run of decimal digits.
pub open spec fn all_digits(w: Seq<char>) -> bool {
    w.len() > 0 && forall|k: int| 0 <= k < w.len() ==> is_digit(#[trigger] w[k])
}

/// The token a single word reads as: an entry of the fixed table; else a
/// float literal where `reads_as_float` says the word parses as a float;
/// else an integer literal for digits that fit `u128`; else an identifier.
pub fn word_token(word: &str, reads_as_float: bool) -> (t: Token)
    ensures
        fixed_token(word@) matches Some(f) ==> t == f,
        fixed_token(word@) is None && reads_as_float ==> (t matches Token::LiteralFloat(s) && s@ == word@),
        fixed_token(word@) is None && !reads_as_float && all_digits(word@) && digits_value(word@) <= u128::MAX
            ==> t == Token::LiteralInt(digits_value(word@) as u128),
        fixed_token(word@) is None && !reads_as_float && !(all_digits(word@) && digits_value(word@) <= u128::MAX)
            ==> (t matches Token::Identifier(s) && s@ == word@),
{
    if let Some(f) = fixed_token_of(word) {
        return f;
    }
    let cs = chars_of(word);
    let n = cs.len();
    proof {
        assert(cs@.subrange(0, n as int) =~= word@);
    }
    if reads_as_float {
        return Token::LiteralFloat(string_of(&cs, 0, n));
    }
    let mut k: usize = 0;
    while k < n
        invariant
            k <= n,
            n == cs@.len(),
            cs@ == word@,
            fixed_token(word@) is None,
            !reads_as_float,
            forall|j: int| 0 <= j < k ==> is_digit(#[trigger] cs@[j]),
        decreases n - k,
    {
        if !is_digit_exec(cs[k]) {
            return Token::Identifier(string_of(&cs, 0, n));
        }
        k = k + 1;
    }
    if n > 0 {
        if let Some(v) = digits_u128(&cs, 0, n) {
            return Token::LiteralInt(v);
        }
    }
    Token::Identifier(string_of(&cs, 0, n))
}

// ── Laws ─────────────────────────────────────────────────────────────────────

/// Every token lies in `lo..hi`, covers at least one byte, and ends before
/// the next one starts.
pub open spec fn spans_in_order(ts: Seq<TokModel>, lo: int, hi: int) -> bool {
    &&& forall|k: int| 0 <= k < ts.len() ==> lo <= #[trigger] ts[k].start < ts[k].end <= hi
    &&& forall|k: int| 0 <= k < ts.len() - 1 ==> #[trigger] ts[k].end <= ts[k + 1].start
}

proof fn lemma_bytes_at_least(cs: Seq<char>, a: int, b: int)
    requires
        0 <= a <= b <= cs.len(),
    ensures
        bytes_between(cs, a, b) >= b - a,
    decreases b - a,
{
    if a < b {
        lemma_bytes_at_least(cs, a, b - 1);
    }
}

proof fn lemma_lex_from_spans(cs: Seq<char>, i: int)
    requires
        0 <= i <= cs.len(),
    ensures
        lex_from(cs, i, bytes_between(cs, 0, i) as int) matches Ok(ts) ==> spans_in_order(
            ts,
            bytes_between(cs, 0, i) as int,
            bytes_between(cs, 0, cs.len() as int) as int,
        ),
    decreases cs.len() - i,
{
    let off = bytes_between(cs, 0, i) as int;
    let total = bytes_between(cs, 0, cs.len() as int) as int;
    if i < cs.len() {
        lemma_step_at(cs, i);
        match step_at(cs, i) {
            Step::Skip(n) => {
                lemma_bytes_split(cs, 0, i, i + n);
                lemma_lex_from_spans(cs, i + n);
            },
            Step::Take(t, n) => {
                lemma_bytes_split(cs, 0, i, i + n);
                lemma_bytes_split(cs, 0, i + n, cs.len() as int);
                lemma_bytes_at_least(cs, i, i + n);
                lemma_lex_from_spans(cs, i + n);
                let end = off + bytes_between(cs, i, i + n);
                match lex_from(cs, i + n, end) {
                    Ok(rest) => {
                        let ts = seq![TokModel { kind: t, start: off, end }] + rest;
                        assert forall|k: int| 0 <= k < ts.len() implies off <= #[trigger] ts[k].start
                            < ts[k].end <= total by {
                            if k > 0 {
                                assert(ts[k] == rest[k - 1]);
                            }
                        }
                        assert forall|k: int| 0 <= k < ts.len() - 1 implies #[trigger] ts[k].end
                            <= ts[k + 1].start by {
                            if k > 0 {
                                assert(ts[k] == rest[k - 1]);
                                assert(ts[k + 1] == rest[k]);
                            } else {
                                assert(ts[1] == rest[0]);
                            }
                        }
                    },
                    Err(_) => {},
                }
            },
            Step::Fail(_) => {},
        }
    }
}

/// The tokens of a text come in source order, each covers at least one
/// byte, none overlaps the next, and none reaches past the end of the text.
pub proof fn law_token_spans_in_order(cs: Seq<char>)
    ensures
        lex_outcome(cs) matches Ok(ts) ==> spans_in_order(
            ts,
            0,
            bytes_between(cs, 0, cs.len() as int) as int,
        ),
{
    lemma_lex_from_spans(cs, 0);
}


/// A character literal's escape means what the same escape means in a
/// string: `'\n'`, `'\r'`, `'\t'` and `'\0'` are the one control character
/// that `"\n"`, `"\r"`, `"\t"`, `"\0"` hold (`'\t'` is the tab, U+0009),
/// never the letter or digit itself; `'\\'` and `'\''` are the backslash
/// and the quote, and any other escaped character stands for itself. The
/// literal is one token four characters long.
pub proof fn law_char_escape_agrees_with_strings(cs: Seq<char>, i: int)
    requires
        0 <= i,
        i + 3 < cs.len(),
        cs[i] == '\'',
        cs[i + 1] == '\\',
        cs[i + 2] != '\n',
        cs[i + 3] == '\'',
    ensures
        ({
            let c = cs[i + 2];
            let st = step_at(cs, i);
            &&& st is Take
            &&& st->Take_1 == 4
            &&& st->Take_0 is Char
            &&& ({
                let x = st->Take_0->Char_0;
                &&& (c == 'n' || c == 'r' || c == 't' || c == '0') ==> seq![x] == unescape(seq!['\\', c]) && x != c
                &&& c == 'n' ==> x == '\n'
                &&& c == 'r' ==> x == '\r'
                &&& c == 't' ==> x == '\t'
                &&& c == '0' ==> x == '\0'
                &&& !(c == 'n' || c == 'r' || c == 't' || c == '0') ==> x == c
            })
        }),
{
    let c = cs[i + 2];
    assert(next_char(cs, i + 3) == Some('\''));
    let u = unescape(seq!['\\', c]);
    assert(seq!['\\', c].skip(2) =~= Seq::<char>::empty());
    assert(unescape(Seq::<char>::empty()) == Seq::<char>::empty());
    if c == 'n' {
        assert(u =~= seq!['\n']);
    } else if c == 'r' {
        assert(u =~= seq!['\r']);
    } else if c == 't' {
        assert(u =~= seq!['\t']);
    } else if c == '0' {
        assert(u =~= seq!['\0']);
    }
}

/// The text `'\t'` (quote, backslash, `t`, quote) lexes to exactly one
/// token, the tab character, spanning the four bytes; likewise for the
/// other escapes, each to the character its escape stands for.
pub proof fn law_char_literal_text(c: char)
    requires
        c != '\n',
    ensures
        ({
            let cs = seq!['\'', '\\', c, '\''];
            let x = step_at(cs, 0)->Take_0->Char_0;
            &&& lex_outcome(cs) == Ok::<Seq<TokModel>, (Seq<char>, int)>(
                seq![TokModel { kind: TokenModel::Char(x), start: 0, end: bytes_between(cs, 0, 4) as int }],
            )
            &&& c == 't' ==> x == '\t'
            &&& c == 'n' ==> x == '\n'
            &&& c == 'r' ==> x == '\r'
            &&& c == '0' ==> x == '\0'
        }),
{
    let cs = seq!['\'', '\\', c, '\''];
    law_char_escape_agrees_with_strings(cs, 0);
    let n: int = bytes_between(cs, 0, 4) as int;
    assert(lex_from(cs, 4, n) == Ok::<Seq<TokModel>, (Seq<char>, int)>(Seq::empty()));
    let x = step_at(cs, 0)->Take_0->Char_0;
    assert(seq![TokModel { kind: TokenModel::Char(x), start: 0, end: n }] + Seq::<TokModel>::empty() =~= seq![
        TokModel { kind: TokenModel::Char(x), start: 0, end: n },
    ]);
}

/// In a string literal's body, `\n`, `\r`, `\t`, `\0`, `\\` and `\"`
/// each read as one character (newline U+000A, carriage return U+000D, tab
/// U+0009, NUL, backslash, quote), whatever follows; a backslash before any
/// other character is kept with it.
pub proof fn law_string_escapes(c: char, rest: Seq<char>)
    ensures
        unescape(seq!['\\', 'n'] + rest) == seq!['\n'] + unescape(rest),
        unescape(seq!['\\', 'r'] + rest) == seq!['\r'] + unescape(rest),
        unescape(seq!['\\', 't'] + rest) == seq!['\t'] + unescape(rest),
        unescape(seq!['\\', '0'] + rest) == seq!['\0'] + unescape(rest),
        unescape(seq!['\\', '\\'] + rest) == seq!['\\'] + unescape(rest),
        unescape(seq!['\\', '"'] + rest) == seq!['"'] + unescape(rest),
        !(c == 'n' || c == 'r' || c == 't' || c == '0' || c == '\\' || c == '"') ==> unescape(seq!['\\', c] + rest)
            == seq!['\\', c] + unescape(rest),
        '\n' as u32 == 10 && '\r' as u32 == 13 && '\t' as u32 == 9 && '\0' as u32 == 0,
{
    assert((seq!['\\', 'n'] + rest).skip(2) =~= rest);
    assert((seq!['\\', 'r'] + rest).skip(2) =~= rest);
    assert((seq!['\\', 't'] + rest).skip(2) =~= rest);
    assert((seq!['\\', '0'] + rest).skip(2) =~= rest);
    assert((seq!['\\', '\\'] + rest).skip(2) =~= rest);
    assert((seq!['\\', '"'] + rest).skip(2) =~= rest);
    assert((seq!['\\', c] + rest).skip(2) =~= rest);
}

/// A number printed in decimal lexes back to itself: the decimal text of
/// any `n` that fits in `u128` is one integer-literal token holding `n`,
/// spanning the whole text.
pub proof fn law_decimal_text_lexes_back(n: u128)
    ensures
        ({
            let cs = decimal(n as nat);
            lex_outcome(cs) == Ok::<Seq<TokModel>, (Seq<char>, int)>(
                seq![TokModel { kind: TokenModel::Int(n), start: 0, end: bytes_between(cs, 0, cs.len() as int) as int }],
            )
        }),
{
    let cs = decimal(n as nat);
    law_decimal_reads_back(n as nat);
    let len = cs.len() as int;
    lemma_run_end(cs, 0, |x: char| is_digit(x));
    let d = run_end(cs, 0, |x: char| is_digit(x));
    if d < len {
        assert(is_digit(cs[d]));
    }
    assert(d == len);
    assert(cs.subrange(0, len) =~= cs);
    assert(next_char(cs, len) == None::<char>);
    assert(is_digit(cs[0]));
    assert(!is_skip_space(cs[0]));
    assert(step_at(cs, 0) == Step::Take(TokenModel::Int(n), len as nat));
    let end = bytes_between(cs, 0, len) as int;
    assert(lex_from(cs, len, end) == Ok::<Seq<TokModel>, (Seq<char>, int)>(Seq::empty()));
    assert(seq![TokModel { kind: TokenModel::Int(n), start: 0, end }] + Seq::<TokModel>::empty() =~= seq![
        TokModel { kind: TokenModel::Int(n), start: 0, end },
    ]);
}

/// A string literal's body without a backslash reads as itself.
pub proof fn law_unescape_plain(s: Seq<char>)
    requires
        forall|j: int| 0 <= j < s.len() ==> s[j] != '\\',
    ensures
        unescape(s) == s,
    decreases s.len(),
{
    if s.len() > 0 {
        assert(forall|j: int| 0 <= j < s.skip(1).len() ==> s.skip(1)[j] == s[j + 1]);
        law_unescape_plain(s.skip(1));
        assert(seq![s[0]] + s.skip(1) =~= s);
    }
}

} // verus!
