//! Lexical analysis: one pass over the source bytes, from left to right.

use crate::error::{Diagnostic, JPLError};
use crate::text::{
    ascii_bytes, ascii_text, decimal, decimal_value, decode_lossy, decoded, is_alnum, is_alpha,
    is_digit, lemma_decimal_round_trip,
};
use vstd::prelude::*;
use vstd::slice::slice_subrange;
use vstd::string::*;

verus! {

/// The first and the last byte offset of a token in the source. A token of
/// no bytes (an empty string literal) has `end` one before `start`; the
/// end-of-input marker has both at the length of the source.
#[derive(Debug, Clone, Copy, PartialEq, Eq, Structural)]
pub struct Span {
    pub start: usize,
    pub end: usize,
}

impl Default for Span {
    /// The span from offset 0 to offset 0.
    fn default() -> (span: Self)
        ensures
            span == (Span { start: 0, end: 0 }),
    {
        Self { start: 0, end: 0 }
    }
}

impl Span {
    /// The span from `start` to `end`.
    pub fn new(start: usize, end: usize) -> (span: Self)
        ensures
            span == (Span { start, end }),
    {
        Self { start, end }
    }
}

/// What a token is. A floating-point literal holds its digits and its
/// decimal point as written.
#[derive(Debug, Clone, PartialEq, Eq)]
pub enum TokenContents {
    Plus,
    Minus,
    Star,
    Slash,
    Equal,
    LParen,
    RParen,
    LCurly,
    RCurly,
    Integer(i64),
    Float(String),
    QuotedString(String),
    Name(String),
    Eof,
}

/// The mathematical value of a `TokenContents`.
pub enum TokenKind {
    Plus,
    Minus,
    Star,
    Slash,
    Equal,
    LParen,
    RParen,
    LCurly,
    RCurly,
    Integer(i64),
    Float(Seq<char>),
    QuotedString(Seq<char>),
    Name(Seq<char>),
    Eof,
}

impl View for TokenContents {
    type V = TokenKind;

    open spec fn view(&self) -> TokenKind {
        match self {
            TokenContents::Plus => TokenKind::Plus,
            TokenContents::Minus => TokenKind::Minus,
            TokenContents::Star => TokenKind::Star,
            TokenContents::Slash => TokenKind::Slash,
            TokenContents::Equal => TokenKind::Equal,
            TokenContents::LParen => TokenKind::LParen,
            TokenContents::RParen => TokenKind::RParen,
            TokenContents::LCurly => TokenKind::LCurly,
            TokenContents::RCurly => TokenKind::RCurly,
            TokenContents::Integer(i) => TokenKind::Integer(*i),
            TokenContents::Float(s) => TokenKind::Float(s@),
            TokenContents::QuotedString(s) => TokenKind::QuotedString(s@),
            TokenContents::Name(s) => TokenKind::Name(s@),
            TokenContents::Eof => TokenKind::Eof,
        }
    }
}

/// A token: what it is, where it stands, and the 1-based line it starts on.
#[derive(Debug, Clone, PartialEq, Eq)]
pub struct Token {
    pub contents: TokenContents,
    pub span: Span,
    pub line: usize,
}

/// The mathematical value of a `Token`.
pub struct TokenModel {
    pub kind: TokenKind,
    pub span: Span,
    pub line: nat,
}

impl View for Token {
    type V = TokenModel;

    open spec fn view(&self) -> TokenModel {
        TokenModel { kind: self.contents@, span: self.span, line: self.line as nat }
    }
}

/// The values of a run of tokens, in order.
pub open spec fn token_models(tokens: Seq<Token>) -> Seq<TokenModel> {
    Seq::new(tokens.len(), |i: int| tokens[i]@)
}

impl Token {
    /// A token on the first line.
    pub fn new(contents: TokenContents, span: Span) -> (token: Self)
        ensures
            token == (Token { contents, span, line: 1 }),
    {
        Self { contents, span, line: 1 }
    }

    /// A token on a given line.
    pub fn on_line(contents: TokenContents, span: Span, line: usize) -> (token: Self)
        ensures
            token == (Token { contents, span, line }),
    {
        Self { contents, span, line }
    }
}

/// The kinds of byte run that the lexer follows to its end.
pub enum Run {
    /// Digits and decimal points.
    Number,
    /// Letters and digits.
    Word,
    /// Anything but a double quote.
    Quoted,
    /// Anything but a newline.
    Comment,
}

/// Whether a byte continues a run of the given kind.
pub open spec fn continues(run: Run, b: u8) -> bool {
    match run {
        Run::Number => is_digit(b) || b == 0x2e,
        Run::Word => is_alnum(b),
        Run::Quoted => b != 0x22,
        Run::Comment => b != 0x0a,
    }
}

/// The first offset at or after `pos` whose byte does not continue the run,
/// or the length of the source where every byte to its end does.
pub open spec fn run_end(bytes: Seq<u8>, pos: int, run: Run) -> int
    decreases bytes.len() - pos,
{
    if 0 <= pos < bytes.len() && continues(run, bytes[pos]) {
        run_end(bytes, pos + 1, run)
    } else {
        pos
    }
}

/// How many bytes of `s` are decimal points.
pub open spec fn count_points(s: Seq<u8>) -> nat
    decreases s.len(),
{
    if s.len() == 0 {
        0
    } else {
        count_points(s.drop_last()) + if s.last() == 0x2e { 1nat } else { 0nat }
    }
}

/// How many bytes of `s` are newlines.
pub open spec fn count_newlines(s: Seq<u8>) -> nat
    decreases s.len(),
{
    if s.len() == 0 {
        0
    } else {
        count_newlines(s.drop_last()) + if s.last() == 0x0a { 1nat } else { 0nat }
    }
}

/// The 1-based line of the byte at offset `pos`: one more than the number
/// of newlines before it.
pub open spec fn line_at(bytes: Seq<u8>, pos: int) -> nat {
    1 + count_newlines(bytes.take(pos))
}

/// The message for a numeric literal with a second decimal point.
pub open spec fn msg_two_points() -> Seq<char> {
    "Bad floating point number, found two decimal points"@
}

/// The message for an integer literal above the largest 64-bit integer.
pub open spec fn msg_bad_integer() -> Seq<char> {
    "Bad integer"@
}

/// The message for a string literal that no double quote closes.
pub open spec fn msg_unterminated() -> Seq<char> {
    "Unterminated string"@
}

/// The message for a byte that begins no token; it shows the byte as the
/// character with the same code.
pub open spec fn msg_unexpected(b: u8) -> Seq<char> {
    "unexpected token '"@.push(b as char) + "'"@
}

/// What stands at one offset of the source.
pub enum Scan {
    /// Blank space, a newline or a comment; lexing goes on at `next`.
    Skip { next: int },
    /// A token from `start` to `end`; lexing goes on at `next`.
    Found { kind: TokenKind, start: int, end: int, next: int },
    /// Nothing that the language has.
    Fail { message: Seq<char> },
}

/// The token for one of the single-character symbols, if the byte is one.
pub open spec fn symbol(b: u8) -> Option<TokenKind> {
    if b == 0x2b {
        Some(TokenKind::Plus)
    } else if b == 0x2d {
        Some(TokenKind::Minus)
    } else if b == 0x2a {
        Some(TokenKind::Star)
    } else if b == 0x3d {
        Some(TokenKind::Equal)
    } else if b == 0x28 {
        Some(TokenKind::LParen)
    } else if b == 0x29 {
        Some(TokenKind::RParen)
    } else if b == 0x7b {
        Some(TokenKind::LCurly)
    } else if b == 0x7d {
        Some(TokenKind::RCurly)
    } else {
        None
    }
}

/// A numeric literal that starts at `pos`.
pub open spec fn scan_number(bytes: Seq<u8>, pos: int) -> Scan {
    let end = run_end(bytes, pos, Run::Number);
    let lexeme = bytes.subrange(pos, end);
    if count_points(lexeme) >= 2 {
        Scan::Fail { message: msg_two_points() }
    } else if count_points(lexeme) == 1 {
        Scan::Found {
            kind: TokenKind::Float(ascii_text(lexeme)),
            start: pos,
            end: end - 1,
            next: end,
        }
    } else if decimal_value(lexeme) > i64::MAX {
        Scan::Fail { message: msg_bad_integer() }
    } else {
        Scan::Found {
            kind: TokenKind::Integer(decimal_value(lexeme) as i64),
            start: pos,
            end: end - 1,
            next: end,
        }
    }
}

/// A string literal whose opening quote is at `pos`.
pub open spec fn scan_string(bytes: Seq<u8>, pos: int) -> Scan {
    let close = run_end(bytes, pos + 1, Run::Quoted);
    if close >= bytes.len() {
        Scan::Fail { message: msg_unterminated() }
    } else {
        Scan::Found {
            kind: TokenKind::QuotedString(decoded(bytes.subrange(pos + 1, close))),
            start: pos + 1,
            end: close - 1,
            next: close + 1,
        }
    }
}

/// What stands at offset `pos`, which is inside the source.
pub open spec fn scan(bytes: Seq<u8>, pos: int) -> Scan
    recommends
        0 <= pos < bytes.len(),
{
    let b = bytes[pos];
    if is_digit(b) {
        scan_number(bytes, pos)
    } else if is_alpha(b) {
        let end = run_end(bytes, pos, Run::Word);
        Scan::Found {
            kind: TokenKind::Name(ascii_text(bytes.subrange(pos, end))),
            start: pos,
            end: end - 1,
            next: end,
        }
    } else if b == 0x22 {
        scan_string(bytes, pos)
    } else if symbol(b) is Some {
        Scan::Found { kind: symbol(b)->0, start: pos, end: pos, next: pos + 1 }
    } else if b == 0x20 || b == 0x09 || b == 0x0d || b == 0x0a {
        Scan::Skip { next: pos + 1 }
    } else if b == 0x2f {
        if pos + 1 < bytes.len() && bytes[pos + 1] == 0x2f {
            let end = run_end(bytes, pos + 2, Run::Comment);
            Scan::Skip { next: if end < bytes.len() { end + 1 } else { end } }
        } else {
            Scan::Found { kind: TokenKind::Slash, start: pos, end: pos, next: pos + 1 }
        }
    } else {
        Scan::Fail { message: msg_unexpected(b) }
    }
}

/// The end-of-input marker of a source.
pub open spec fn eof_model(bytes: Seq<u8>) -> TokenModel {
    TokenModel {
        kind: TokenKind::Eof,
        span: Span { start: bytes.len() as usize, end: bytes.len() as usize },
        line: line_at(bytes, bytes.len() as int),
    }
}

/// The tokens from offset `pos` to the end of the source, or the first
/// failure at or after `pos`.
pub open spec fn lex_from(bytes: Seq<u8>, pos: int) -> Result<Seq<TokenModel>, Diagnostic>
    decreases bytes.len() - pos,
{
    if pos < 0 || pos >= bytes.len() {
        Ok(seq![eof_model(bytes)])
    } else {
        proof {
            lemma_scan_advances(bytes, pos);
        }
        match scan(bytes, pos) {
            Scan::Skip { next } => lex_from(bytes, next),
            Scan::Found { kind, start, end, next } => {
                let token = TokenModel {
                    kind,
                    span: Span { start: start as usize, end: end as usize },
                    line: line_at(bytes, pos),
                };
                match lex_from(bytes, next) {
                    Ok(rest) => Ok(seq![token] + rest),
                    Err(e) => Err(e),
                }
            },
            Scan::Fail { message } => Err(Diagnostic { message, line: line_at(bytes, pos) }),
        }
    }
}

/// What lexing a source gives: its tokens, the end-of-input marker last, or
/// the first failure.
pub open spec fn lex_spec(bytes: Seq<u8>) -> Result<Seq<TokenModel>, Diagnostic> {
    lex_from(bytes, 0)
}

/// A run ends at or after the offset it starts from, and inside the source
/// or at its end.
pub proof fn lemma_run_end_bounds(bytes: Seq<u8>, pos: int, run: Run)
    requires
        0 <= pos <= bytes.len(),
    ensures
        pos <= run_end(bytes, pos, run) <= bytes.len(),
        forall|i: int| pos <= i < run_end(bytes, pos, run) ==> continues(run, #[trigger] bytes[i]),
        run_end(bytes, pos, run) < bytes.len() ==> !continues(
            run,
            bytes[run_end(bytes, pos, run)],
        ),
    decreases bytes.len() - pos,
{
    if pos < bytes.len() && continues(run, bytes[pos]) {
        lemma_run_end_bounds(bytes, pos + 1, run);
    }
}

/// Whatever stands at an offset inside the source, lexing goes on after it.
pub proof fn lemma_scan_advances(bytes: Seq<u8>, pos: int)
    requires
        0 <= pos < bytes.len(),
    ensures
        match scan(bytes, pos) {
            Scan::Skip { next } => pos < next <= bytes.len(),
            Scan::Found { kind, start, end, next } => pos < next <= bytes.len() && pos <= start
                <= end + 1 <= next,
            Scan::Fail { message } => true,
        },
{
    lemma_run_end_bounds(bytes, pos, Run::Number);
    lemma_run_end_bounds(bytes, pos, Run::Word);
    lemma_run_end_bounds(bytes, pos + 1, Run::Quoted);
    if pos + 2 <= bytes.len() {
        lemma_run_end_bounds(bytes, pos + 2, Run::Comment);
    }
}

/// Counting newlines up to one more byte adds one exactly where that byte
/// is a newline.
pub proof fn lemma_line_step(bytes: Seq<u8>, pos: int)
    requires
        0 <= pos < bytes.len(),
    ensures
        line_at(bytes, pos + 1) == line_at(bytes, pos) + if bytes[pos] == 0x0a {
            1nat
        } else {
            0nat
        },
        line_at(bytes, pos) <= pos + 1,
    decreases pos,
{
    assert(bytes.take(pos + 1).drop_last() =~= bytes.take(pos));
    if pos > 0 {
        lemma_line_step(bytes, pos - 1);
    } else {
        assert(bytes.take(0).len() == 0);
    }
}

/// Bytes that hold no newline leave the line as it is.
pub proof fn lemma_line_unchanged(bytes: Seq<u8>, from: int, to: int)
    requires
        0 <= from <= to <= bytes.len(),
        forall|i: int| from <= i < to ==> bytes[i] != 0x0a,
    ensures
        line_at(bytes, to) == line_at(bytes, from),
    decreases to - from,
{
    if from < to {
        lemma_line_unchanged(bytes, from, to - 1);
        lemma_line_step(bytes, to - 1);
    }
}

/// Whether a byte continues a run of the given kind.
fn continues_run(run: &Run, b: u8) -> (c: bool)
    ensures
        c == continues(*run, b),
{
    match run {
        Run::Number => (0x30 <= b && b <= 0x39) || b == 0x2e,
        Run::Word => (0x30 <= b && b <= 0x39) || (0x41 <= b && b <= 0x5a) || (0x61 <= b && b
            <= 0x7a),
        Run::Quoted => b != 0x22,
        Run::Comment => b != 0x0a,
    }
}

/// Follows a run from `pos` to its end.
fn follow(bytes: &[u8], pos: usize, run: &Run) -> (end: usize)
    requires
        pos <= bytes.len(),
    ensures
        end == run_end(bytes@, pos as int, *run),
        pos <= end <= bytes.len(),
{
    let mut end = pos;
    while end < bytes.len() && continues_run(run, bytes[end])
        invariant
            pos <= end <= bytes.len(),
            run_end(bytes@, end as int, *run) == run_end(bytes@, pos as int, *run),
        decreases bytes.len() - end,
    {
        end += 1;
    }
    end
}

/// The line of offset `to`, from the line of offset `from`.
fn line_after(bytes: &[u8], from: usize, to: usize, line: usize) -> (after: usize)
    requires
        from <= to <= bytes.len(),
        bytes.len() < usize::MAX,
        line == line_at(bytes@, from as int),
    ensures
        after == line_at(bytes@, to as int),
{
    let mut at = from;
    let mut after = line;
    while at < to
        invariant
            from <= at <= to <= bytes.len(),
            bytes.len() < usize::MAX,
            after == line_at(bytes@, at as int),
        decreases to - at,
    {
        proof {
            lemma_line_step(bytes@, at as int);
        }
        if bytes[at] == 0x0a {
            after += 1;
        }
        at += 1;
    }
    after
}

/// The bytes from `start` to `end`, each as the character with its code.
fn ascii_string(bytes: &[u8], start: usize, end: usize) -> (s: String)
    requires
        start <= end <= bytes.len(),
    ensures
        s@ == ascii_text(bytes@.subrange(start as int, end as int)),
{
    let mut s = String::new();
    let mut i = start;
    while i < end
        invariant
            start <= i <= end <= bytes.len(),
            s@ == ascii_text(bytes@.subrange(start as int, i as int)),
        decreases end - i,
    {
        s.push(bytes[i] as char);
        i += 1;
        assert(s@ =~= ascii_text(bytes@.subrange(start as int, i as int)));
    }
    s
}

/// How many of the bytes from `start` to `end` are decimal points.
fn points(bytes: &[u8], start: usize, end: usize) -> (n: usize)
    requires
        start <= end <= bytes.len(),
    ensures
        n == count_points(bytes@.subrange(start as int, end as int)),
{
    let mut n: usize = 0;
    let mut i = start;
    while i < end
        invariant
            start <= i <= end <= bytes.len(),
            n == count_points(bytes@.subrange(start as int, i as int)),
            n <= i - start,
        decreases end - i,
    {
        assert(bytes@.subrange(start as int, i + 1).drop_last() =~= bytes@.subrange(
            start as int,
            i as int,
        ));
        if bytes[i] == 0x2e {
            n += 1;
        }
        i += 1;
    }
    n
}

/// The value of a longer run of digits is no less than that of its start.
pub proof fn lemma_decimal_value_grows(digits: Seq<u8>, k: int)
    requires
        0 <= k <= digits.len(),
        forall|i: int| 0 <= i < digits.len() ==> is_digit(#[trigger] digits[i]),
    ensures
        decimal_value(digits.take(k)) <= decimal_value(digits),
    decreases digits.len() - k,
{
    if k < digits.len() {
        lemma_decimal_value_grows(digits, k + 1);
        assert(digits.take(k + 1).drop_last() =~= digits.take(k));
    } else {
        assert(digits.take(k) =~= digits);
    }
}

/// The number that the digits from `start` to `end` denote, where it fits.
fn integer_value(bytes: &[u8], start: usize, end: usize) -> (value: Option<i64>)
    requires
        start <= end <= bytes.len(),
        forall|i: int| start <= i < end ==> is_digit(#[trigger] bytes@[i]),
    ensures
        match value {
            Some(v) => v == decimal_value(bytes@.subrange(start as int, end as int)),
            None => decimal_value(bytes@.subrange(start as int, end as int)) > i64::MAX,
        },
{
    let ghost digits = bytes@.subrange(start as int, end as int);
    let mut value: i64 = 0;
    let mut i = start;
    while i < end
        invariant
            start <= i <= end <= bytes.len(),
            digits == bytes@.subrange(start as int, end as int),
            forall|j: int| 0 <= j < digits.len() ==> is_digit(#[trigger] digits[j]),
            0 <= value,
            value == decimal_value(digits.take(i - start)),
        decreases end - i,
    {
        assert(is_digit(digits[i - start]) && digits[i - start] == bytes@[i as int]);
        let d: i64 = (bytes[i] - 0x30) as i64;
        proof {
            assert(digits.take(i - start + 1).drop_last() =~= digits.take(i - start));
            lemma_decimal_value_grows(digits, i - start + 1);
        }
        if value > (i64::MAX - d) / 10 {
            return None;
        }
        value = value * 10 + d;
        i += 1;
    }
    assert(digits.take(end - start) =~= digits);
    Some(value)
}

/// What the lexer found at one offset.
enum Step {
    Skip(usize),
    Found(TokenContents, Span, usize),
    Fail(String),
}

/// The mathematical value of a `Step`.
spec fn step_model(step: Step) -> Scan {
    match step {
        Step::Skip(next) => Scan::Skip { next: next as int },
        Step::Found(contents, span, next) => Scan::Found {
            kind: contents@,
            start: span.start as int,
            end: span.end as int,
            next: next as int,
        },
        Step::Fail(message) => Scan::Fail { message: message@ },
    }
}

/// Reads the numeric literal that starts at `pos`.
fn step_number(bytes: &[u8], pos: usize) -> (step: Step)
    requires
        pos < bytes.len(),
        is_digit(bytes@[pos as int]),
    ensures
        step_model(step) == scan_number(bytes@, pos as int),
{
    let end = follow(bytes, pos, &Run::Number);
    proof {
        lemma_run_end_bounds(bytes@, pos as int, Run::Number);
    }
    let dots = points(bytes, pos, end);
    if dots >= 2 {
        Step::Fail(String::from_str("Bad floating point number, found two decimal points"))
    } else if dots == 1 {
        let digits = ascii_string(bytes, pos, end);
        Step::Found(TokenContents::Float(digits), Span::new(pos, end - 1), end)
    } else {
        proof {
            lemma_no_points(bytes@, pos as int, end as int);
        }
        match integer_value(bytes, pos, end) {
            Some(value) => Step::Found(TokenContents::Integer(value), Span::new(pos, end - 1), end),
            None => Step::Fail(String::from_str("Bad integer")),
        }
    }
}

/// A run of digits and decimal points that holds no decimal point holds
/// digits only.
proof fn lemma_no_points(bytes: Seq<u8>, from: int, to: int)
    requires
        0 <= from <= to <= bytes.len(),
        forall|i: int| from <= i < to ==> continues(Run::Number, #[trigger] bytes[i]),
        count_points(bytes.subrange(from, to)) == 0,
    ensures
        forall|i: int| from <= i < to ==> is_digit(#[trigger] bytes[i]),
    decreases to - from,
{
    if from < to {
        assert(bytes.subrange(from, to).drop_last() =~= bytes.subrange(from, to - 1));
        assert(bytes.subrange(from, to).last() == bytes[to - 1]);
        lemma_no_points(bytes, from, to - 1);
    }
}

/// Reads what stands at `pos`.
fn step(bytes: &[u8], pos: usize) -> (step: Step)
    requires
        pos < bytes.len(),
    ensures
        step_model(step) == scan(bytes@, pos as int),
{
    let b = bytes[pos];
    proof {
        lemma_scan_advances(bytes@, pos as int);
    }
    if 0x30 <= b && b <= 0x39 {
        step_number(bytes, pos)
    } else if (0x41 <= b && b <= 0x5a) || (0x61 <= b && b <= 0x7a) {
        let end = follow(bytes, pos, &Run::Word);
        let name = ascii_string(bytes, pos, end);
        Step::Found(TokenContents::Name(name), Span::new(pos, end - 1), end)
    } else if b == 0x22 {
        let close = follow(bytes, pos + 1, &Run::Quoted);
        if close >= bytes.len() {
            Step::Fail(String::from_str("Unterminated string"))
        } else {
            let text = decode_lossy(slice_subrange(bytes, pos + 1, close));
            Step::Found(TokenContents::QuotedString(text), Span::new(pos + 1, close - 1), close + 1)
        }
    } else if b == 0x2b {
        Step::Found(TokenContents::Plus, Span::new(pos, pos), pos + 1)
    } else if b == 0x2d {
        Step::Found(TokenContents::Minus, Span::new(pos, pos), pos + 1)
    } else if b == 0x2a {
        Step::Found(TokenContents::Star, Span::new(pos, pos), pos + 1)
    } else if b == 0x3d {
        Step::Found(TokenContents::Equal, Span::new(pos, pos), pos + 1)
    } else if b == 0x28 {
        Step::Found(TokenContents::LParen, Span::new(pos, pos), pos + 1)
    } else if b == 0x29 {
        Step::Found(TokenContents::RParen, Span::new(pos, pos), pos + 1)
    } else if b == 0x7b {
        Step::Found(TokenContents::LCurly, Span::new(pos, pos), pos + 1)
    } else if b == 0x7d {
        Step::Found(TokenContents::RCurly, Span::new(pos, pos), pos + 1)
    } else if b == 0x20 || b == 0x09 || b == 0x0d || b == 0x0a {
        Step::Skip(pos + 1)
    } else if b == 0x2f {
        if pos + 1 < bytes.len() && bytes[pos + 1] == 0x2f {
            let end = follow(bytes, pos + 2, &Run::Comment);
            Step::Skip(if end < bytes.len() { end + 1 } else { end })
        } else {
            Step::Found(TokenContents::Slash, Span::new(pos, pos), pos + 1)
        }
    } else {
        let mut message = String::from_str("unexpected token '");
        message.push(b as char);
        message.append("'");
        Step::Fail(message)
    }
}

/// Of the bytes that are skipped at one offset, only the last can be a
/// newline.
proof fn lemma_skipped_lines(bytes: Seq<u8>, pos: int)
    requires
        0 <= pos < bytes.len(),
        scan(bytes, pos) is Skip,
    ensures
        ({
            let next = scan(bytes, pos)->Skip_next;
            &&& pos < next <= bytes.len()
            &&& line_at(bytes, next) == line_at(bytes, pos) + if bytes[next - 1] == 0x0a {
                1nat
            } else {
                0nat
            }
            &&& line_at(bytes, next) <= next + 1
        }),
{
    let next = scan(bytes, pos)->Skip_next;
    lemma_scan_advances(bytes, pos);
    if pos + 2 <= bytes.len() {
        lemma_run_end_bounds(bytes, pos + 2, Run::Comment);
    }
    lemma_line_unchanged(bytes, pos, next - 1);
    lemma_line_step(bytes, next - 1);
}

/// A token that is no string literal holds no newline.
proof fn lemma_token_on_one_line(bytes: Seq<u8>, pos: int)
    requires
        0 <= pos < bytes.len(),
        scan(bytes, pos) is Found,
        !(scan(bytes, pos)->Found_kind is QuotedString),
    ensures
        line_at(bytes, scan(bytes, pos)->Found_next) == line_at(bytes, pos),
{
    lemma_scan_advances(bytes, pos);
    lemma_run_end_bounds(bytes, pos, Run::Number);
    lemma_run_end_bounds(bytes, pos, Run::Word);
    lemma_line_unchanged(bytes, pos, scan(bytes, pos)->Found_next);
}

/// The tokens `prefix`, followed by what `rest` gives.
pub open spec fn prepend(
    prefix: Seq<TokenModel>,
    rest: Result<Seq<TokenModel>, Diagnostic>,
) -> Result<Seq<TokenModel>, Diagnostic> {
    match rest {
        Ok(tokens) => Ok(prefix + tokens),
        Err(e) => Err(e),
    }
}

/// Splits source bytes into tokens. The result ends with the one
/// end-of-input marker; the first byte run that is no token of the
/// language ends lexing with a diagnostic for its line.
pub fn lex(bytes: &[u8]) -> (result: Result<Vec<Token>, JPLError>)
    requires
        bytes.len() < usize::MAX,
    ensures
        match result {
            Ok(tokens) => lex_spec(bytes@) == Ok::<Seq<TokenModel>, Diagnostic>(
                token_models(tokens@),
            ),
            Err(e) => lex_spec(bytes@) == Err::<Seq<TokenModel>, Diagnostic>(e@),
        },
{
    let mut tokens: Vec<Token> = Vec::new();
    let mut index: usize = 0;
    let mut line: usize = 1;
    proof {
        assert(bytes@.take(0).len() == 0);
        assert(token_models(tokens@) =~= Seq::<TokenModel>::empty());
        match lex_from(bytes@, 0) {
            Ok(all) => assert(Seq::<TokenModel>::empty() + all =~= all),
            Err(_) => {},
        }
    }
    while index < bytes.len()
        invariant
            index <= bytes.len() < usize::MAX,
            line == line_at(bytes@, index as int),
            lex_spec(bytes@) == prepend(token_models(tokens@), lex_from(bytes@, index as int)),
        decreases bytes.len() - index,
    {
        proof {
            lemma_scan_advances(bytes@, index as int);
        }
        match step(bytes, index) {
            Step::Skip(next) => {
                proof {
                    lemma_skipped_lines(bytes@, index as int);
                }
                if bytes[next - 1] == 0x0a {
                    line += 1;
                }
                index = next;
            },
            Step::Found(contents, span, next) => {
                let ghost before = token_models(tokens@);
                let quoted = matches!(contents, TokenContents::QuotedString(_));
                let token = Token::on_line(contents, span, line);
                proof {
                    let rest = lex_from(bytes@, next as int);
                    assert(token_models(tokens@.push(token)) =~= before.push(token@));
                    match rest {
                        Ok(r) => assert(before + (seq![token@] + r) =~= before.push(token@) + r),
                        Err(_) => {},
                    }
                }
                tokens.push(token);
                if quoted {
                    line = line_after(bytes, index, next, line);
                } else {
                    proof {
                        lemma_token_on_one_line(bytes@, index as int);
                    }
                }
                index = next;
            },
            Step::Fail(message) => {
                return Err(JPLError::new(message, line));
            },
        }
    }
    let ghost before = token_models(tokens@);
    let eof = Token::on_line(TokenContents::Eof, Span::new(index, index), line);
    proof {
        assert(token_models(tokens@.push(eof)) =~= before.push(eof@));
        assert(before + seq![eof@] =~= before.push(eof@));
    }
    tokens.push(eof);
    Ok(tokens)
}

/// Where every byte from `pos` on continues a run, the run ends with the
/// source.
pub proof fn lemma_run_to_end(bytes: Seq<u8>, pos: int, run: Run)
    requires
        0 <= pos <= bytes.len(),
        forall|i: int| pos <= i < bytes.len() ==> continues(run, #[trigger] bytes[i]),
    ensures
        run_end(bytes, pos, run) == bytes.len(),
    decreases bytes.len() - pos,
{
    if pos < bytes.len() {
        lemma_run_to_end(bytes, pos + 1, run);
    }
}

/// Digits hold no decimal point.
pub proof fn lemma_digits_have_no_point(digits: Seq<u8>)
    requires
        forall|i: int| 0 <= i < digits.len() ==> is_digit(#[trigger] digits[i]),
    ensures
        count_points(digits) == 0,
    decreases digits.len(),
{
    if digits.len() > 0 {
        lemma_digits_have_no_point(digits.drop_last());
    }
}

/// A source that is one decimal integer literal, and nothing else, lexes to
/// one integer token with the literal's value, followed by the end-of-input
/// marker.
pub proof fn lemma_integer_literal(digits: Seq<u8>)
    requires
        digits.len() > 0,
        forall|i: int| 0 <= i < digits.len() ==> is_digit(#[trigger] digits[i]),
        decimal_value(digits) <= i64::MAX,
    ensures
        lex_spec(digits) == Ok::<Seq<TokenModel>, Diagnostic>(
            seq![
                TokenModel {
                    kind: TokenKind::Integer(decimal_value(digits) as i64),
                    span: Span { start: 0, end: (digits.len() - 1) as usize },
                    line: 1,
                },
                TokenModel {
                    kind: TokenKind::Eof,
                    span: Span { start: digits.len() as usize, end: digits.len() as usize },
                    line: 1,
                },
            ],
        ),
{
    let n = digits.len() as int;
    lemma_run_to_end(digits, 0, Run::Number);
    assert(digits.subrange(0, n) =~= digits);
    lemma_digits_have_no_point(digits);
    assert(digits.take(0).len() == 0);
    lemma_line_unchanged(digits, 0, n);
    let first = TokenModel {
        kind: TokenKind::Integer(decimal_value(digits) as i64),
        span: Span { start: 0, end: (digits.len() - 1) as usize },
        line: 1,
    };
    assert(lex_from(digits, n) == Ok::<Seq<TokenModel>, Diagnostic>(seq![eof_model(digits)]));
    assert(seq![first] + seq![eof_model(digits)] =~= seq![first, eof_model(digits)]);
}

/// The decimal notation of a number that an integer token can hold lexes
/// to the token with that number: what code generation writes as a number,
/// the lexer reads as the same number.
pub proof fn lemma_decimal_is_read_back(n: nat)
    requires
        n <= i64::MAX,
    ensures
        lex_spec(ascii_bytes(decimal(n))) matches Ok(tokens) && tokens.len() == 2
            && tokens[0].kind == TokenKind::Integer(n as i64) && tokens[1].kind is Eof,
{
    lemma_decimal_round_trip(n);
    lemma_integer_literal(ascii_bytes(decimal(n)));
}

/// Whether lexing that starts at offset `from` arrives at offset `pos`
/// without a failure on the way.
pub open spec fn reaches(bytes: Seq<u8>, from: int, pos: int) -> bool
    decreases bytes.len() - from,
{
    if from == pos {
        true
    } else if from < 0 || from >= bytes.len() || from > pos {
        false
    } else {
        proof {
            lemma_scan_advances(bytes, from);
        }
        match scan(bytes, from) {
            Scan::Skip { next } => reaches(bytes, next, pos),
            Scan::Found { kind, start, end, next } => reaches(bytes, next, pos),
            Scan::Fail { message } => false,
        }
    }
}

/// A failure at an offset that lexing arrives at is the failure of the
/// whole: no token that stands before it is handed out, and nothing after
/// it is looked at.
pub proof fn lemma_failure_ends_lexing(bytes: Seq<u8>, from: int, pos: int)
    requires
        reaches(bytes, from, pos),
        lex_from(bytes, pos) is Err,
    ensures
        lex_from(bytes, from) == lex_from(bytes, pos),
    decreases bytes.len() - from,
{
    if from != pos {
        lemma_scan_advances(bytes, from);
        match scan(bytes, from) {
            Scan::Skip { next } => lemma_failure_ends_lexing(bytes, next, pos),
            Scan::Found { kind, start, end, next } => lemma_failure_ends_lexing(bytes, next, pos),
            Scan::Fail { message } => {},
        }
    }
}

/// Where lexing arrives at a double quote that no later double quote
/// closes, it fails with the diagnostic for an unterminated string, on the
/// line of the opening quote.
pub proof fn lemma_unterminated_string(bytes: Seq<u8>, pos: int)
    requires
        0 <= pos < bytes.len(),
        bytes[pos] == 0x22,
        forall|i: int| pos < i < bytes.len() ==> bytes[i] != 0x22,
        reaches(bytes, 0, pos),
    ensures
        lex_spec(bytes) == Err::<Seq<TokenModel>, Diagnostic>(
            Diagnostic { message: msg_unterminated(), line: line_at(bytes, pos) },
        ),
{
    lemma_run_to_end(bytes, pos + 1, Run::Quoted);
    lemma_failure_ends_lexing(bytes, 0, pos);
}

/// The empty source lexes to the end-of-input marker alone.
pub proof fn lemma_empty_source()
    ensures
        lex_spec(Seq::<u8>::empty()) == Ok::<Seq<TokenModel>, Diagnostic>(
            seq![
                TokenModel { kind: TokenKind::Eof, span: Span { start: 0, end: 0 }, line: 1 },
            ],
        ),
{
    assert(Seq::<u8>::empty().take(0).len() == 0);
}

/// Whether a run of tokens holds the end-of-input marker once, and last.
pub open spec fn ends_with_one_eof(tokens: Seq<TokenModel>) -> bool {
    &&& tokens.len() > 0
    &&& tokens.last().kind is Eof
    &&& forall|i: int| 0 <= i < tokens.len() - 1 ==> !((#[trigger] tokens[i]).kind is Eof)
}

/// The tokens of a source end with the one end-of-input marker, whatever
/// the source holds.
pub proof fn lemma_one_eof(bytes: Seq<u8>, pos: int)
    requires
        lex_from(bytes, pos) is Ok,
    ensures
        ends_with_one_eof(lex_from(bytes, pos)->Ok_0),
    decreases bytes.len() - pos,
{
    if 0 <= pos < bytes.len() {
        lemma_scan_advances(bytes, pos);
        match scan(bytes, pos) {
            Scan::Skip { next } => lemma_one_eof(bytes, next),
            Scan::Found { kind, start, end, next } => {
                lemma_one_eof(bytes, next);
                let rest = lex_from(bytes, next)->Ok_0;
                let all = lex_from(bytes, pos)->Ok_0;
                assert(forall|i: int| 1 <= i < all.len() ==> all[i] == rest[i - 1]);
            },
            Scan::Fail { message } => {},
        }
    }
}

} // verus!
