//! The lexical grammar as a mathematical model over `Seq<char>`.
//!
//! [`scan`] says, for every source text, which tokens and diagnostics a scan
//! yields. It is built from [`step`], which recognises one lexeme at a given
//! position, and from a few functions that locate where a run of characters
//! ends.

use vstd::prelude::*;
use crate::token::{DiagnosticView, LiteralView, TokenType, TokenView};

verus! {

/// `0` to `9`.
pub open spec fn is_digit(c: char) -> bool {
    '0' <= c && c <= '9'
}

/// An ASCII letter or `_`.
pub open spec fn is_alpha(c: char) -> bool {
    ('a' <= c && c <= 'z') || ('A' <= c && c <= 'Z') || c == '_'
}

/// A character that may continue an identifier.
pub open spec fn is_alpha_numeric(c: char) -> bool {
    is_alpha(c) || is_digit(c)
}

/// The sets of characters that a recogniser consumes as one run.
#[derive(Clone, Copy, PartialEq, Eq, Structural)]
pub enum CharClass {
    /// Decimal digits.
    Digit,
    /// Letters, digits and `_`.
    IdentifierPart,
    /// Everything but a line feed: the text of a line comment.
    CommentText,
    /// Everything but a double quote: the text of a string.
    StringText,
}

/// Whether `c` belongs to `class`.
pub open spec fn in_class(class: CharClass, c: char) -> bool {
    match class {
        CharClass::Digit => is_digit(c),
        CharClass::IdentifierPart => is_alpha_numeric(c),
        CharClass::CommentText => c != '\n',
        CharClass::StringText => c != '"',
    }
}

/// Where the longest run of characters of `class` that starts at `from` ends:
/// the first position at or after `from` that holds a character outside the
/// class, or the length of `s` if there is none.
pub open spec fn run_end(s: Seq<char>, from: int, class: CharClass) -> int
    decreases s.len() - from,
{
    if 0 <= from < s.len() && in_class(class, s[from]) {
        run_end(s, from + 1, class)
    } else {
        from
    }
}

/// The position of the first `*/` at or after `from`, or the length of `s` if
/// there is none.
pub open spec fn comment_close(s: Seq<char>, from: int) -> int
    decreases s.len() - from,
{
    if from < 0 || from >= s.len() {
        s.len() as int
    } else if s[from] == '*' && from + 1 < s.len() && s[from + 1] == '/' {
        from
    } else {
        comment_close(s, from + 1)
    }
}

/// The number of line feeds in `s[from..to]`.
pub open spec fn newlines(s: Seq<char>, from: int, to: int) -> int
    decreases to - from,
{
    if from >= to {
        0
    } else {
        newlines(s, from, to - 1) + if s[to - 1] == '\n' { 1int } else { 0int }
    }
}

/// The keyword table: the kind of a reserved word, `None` for any other text.
pub open spec fn keyword(lexeme: Seq<char>) -> Option<TokenType> {
    if lexeme == "and"@ {
        Some(TokenType::And)
    } else if lexeme == "class"@ {
        Some(TokenType::Class)
    } else if lexeme == "else"@ {
        Some(TokenType::Else)
    } else if lexeme == "false"@ {
        Some(TokenType::False)
    } else if lexeme == "for"@ {
        Some(TokenType::For)
    } else if lexeme == "fun"@ {
        Some(TokenType::Fun)
    } else if lexeme == "if"@ {
        Some(TokenType::If)
    } else if lexeme == "nil"@ {
        Some(TokenType::Nil)
    } else if lexeme == "or"@ {
        Some(TokenType::Or)
    } else if lexeme == "print"@ {
        Some(TokenType::Print)
    } else if lexeme == "return"@ {
        Some(TokenType::Return)
    } else if lexeme == "super"@ {
        Some(TokenType::Super)
    } else if lexeme == "this"@ {
        Some(TokenType::This)
    } else if lexeme == "true"@ {
        Some(TokenType::True)
    } else if lexeme == "var"@ {
        Some(TokenType::Var)
    } else if lexeme == "while"@ {
        Some(TokenType::While)
    } else {
        None
    }
}

/// The kind of a complete identifier run: its keyword, or `Identifier`.
pub open spec fn word_kind(lexeme: Seq<char>) -> TokenType {
    match keyword(lexeme) {
        Some(kind) => kind,
        None => TokenType::Identifier,
    }
}

/// The literal that a word carries: `true`, `false` and `nil` have one.
pub open spec fn word_literal(kind: TokenType) -> Option<LiteralView> {
    match kind {
        TokenType::True => Some(LiteralView::Bool(true)),
        TokenType::False => Some(LiteralView::Bool(false)),
        TokenType::Nil => Some(LiteralView::Nil),
        _ => None,
    }
}

/// The kind of the punctuation mark `c`, if it is one that stands alone.
pub open spec fn punctuation(c: char) -> Option<TokenType> {
    if c == '(' {
        Some(TokenType::LeftParen)
    } else if c == ')' {
        Some(TokenType::RightParen)
    } else if c == '{' {
        Some(TokenType::LeftBrace)
    } else if c == '}' {
        Some(TokenType::RightBrace)
    } else if c == ',' {
        Some(TokenType::Comma)
    } else if c == '.' {
        Some(TokenType::Dot)
    } else if c == '-' {
        Some(TokenType::Minus)
    } else if c == '+' {
        Some(TokenType::Plus)
    } else if c == ';' {
        Some(TokenType::Semicolon)
    } else if c == '*' {
        Some(TokenType::Star)
    } else {
        None
    }
}

/// For an operator that may be followed by `=`: its kind alone and its kind
/// with the `=`.
pub open spec fn operator(c: char) -> Option<(TokenType, TokenType)> {
    if c == '!' {
        Some((TokenType::Bang, TokenType::BangEqual))
    } else if c == '=' {
        Some((TokenType::Equal, TokenType::EqualEqual))
    } else if c == '<' {
        Some((TokenType::Less, TokenType::LessEqual))
    } else if c == '>' {
        Some((TokenType::Greater, TokenType::GreaterEqual))
    } else {
        None
    }
}

/// Whether `s` holds the character `c` at position `at`.
pub open spec fn has_char(s: Seq<char>, at: int, c: char) -> bool {
    0 <= at < s.len() && s[at] == c
}

/// Where the number that starts at `start` ends: after its digits, and after
/// a dot and the digits behind it where a digit follows the dot.
pub open spec fn number_end(s: Seq<char>, start: int) -> int {
    let whole = run_end(s, start, CharClass::Digit);
    if has_char(s, whole, '.') && whole + 1 < s.len() && is_digit(s[whole + 1]) {
        run_end(s, whole + 1, CharClass::Digit)
    } else {
        whole
    }
}

pub open spec fn unexpected_character() -> Seq<char> {
    "Unexpected character."@
}

pub open spec fn unterminated_string() -> Seq<char> {
    "Unterminated string."@
}

pub open spec fn unterminated_block_comment() -> Seq<char> {
    "Unterminated block comment."@
}

/// What recognising one lexeme yields.
pub ghost enum Emit {
    /// White space or a comment.
    Nothing,
    Token(TokenView),
    Diagnostic(DiagnosticView),
}

/// The outcome of recognising one lexeme: where the next one starts, the line
/// number there, and what was recognised.
pub ghost struct Step {
    pub next: int,
    pub line: int,
    pub emit: Emit,
}

/// A token without a literal, made of `s[start..end]`.
pub open spec fn plain(s: Seq<char>, start: int, end: int, line: int, kind: TokenType) -> Step {
    Step {
        next: end,
        line,
        emit: Emit::Token(TokenView { kind, lexeme: s.subrange(start, end), literal: None, line }),
    }
}

/// A stretch of source that yields nothing.
pub open spec fn skip(next: int, line: int) -> Step {
    Step { next, line, emit: Emit::Nothing }
}

/// The lexeme that begins with a `"` at `start`.
pub open spec fn string_step(s: Seq<char>, start: int, line: int) -> Step {
    let close = run_end(s, start + 1, CharClass::StringText);
    let end_line = line + newlines(s, start + 1, close);
    if close < s.len() {
        Step {
            next: close + 1,
            line: end_line,
            emit: Emit::Token(
                TokenView {
                    kind: TokenType::String,
                    lexeme: s.subrange(start, close + 1),
                    literal: Some(LiteralView::Text(s.subrange(start + 1, close))),
                    line,
                },
            ),
        }
    } else {
        Step {
            next: close,
            line: end_line,
            emit: Emit::Diagnostic(DiagnosticView { line: end_line, message: unterminated_string() }),
        }
    }
}

/// The block comment whose `/*` stands at `start`.
pub open spec fn block_comment_step(s: Seq<char>, start: int, line: int) -> Step {
    let close = comment_close(s, start + 2);
    let end_line = line + newlines(s, start + 2, close);
    if close < s.len() {
        skip(close + 2, end_line)
    } else {
        Step {
            next: close,
            line: end_line,
            emit: Emit::Diagnostic(
                DiagnosticView { line: end_line, message: unterminated_block_comment() },
            ),
        }
    }
}

/// The lexeme that begins with a `/` at `start`: a comment or a slash.
pub open spec fn slash_step(s: Seq<char>, start: int, line: int) -> Step {
    if has_char(s, start + 1, '/') {
        skip(run_end(s, start + 2, CharClass::CommentText), line)
    } else if has_char(s, start + 1, '*') {
        block_comment_step(s, start, line)
    } else {
        plain(s, start, start + 1, line, TokenType::Slash)
    }
}

/// The number that begins at `start`.
pub open spec fn number_step(s: Seq<char>, start: int, line: int) -> Step {
    let end = number_end(s, start);
    let lexeme = s.subrange(start, end);
    Step {
        next: end,
        line,
        emit: Emit::Token(
            TokenView {
                kind: TokenType::Number,
                lexeme,
                literal: Some(LiteralView::Number(lexeme)),
                line,
            },
        ),
    }
}

/// The identifier or keyword that begins at `start`.
pub open spec fn word_step(s: Seq<char>, start: int, line: int) -> Step {
    let end = run_end(s, start, CharClass::IdentifierPart);
    let lexeme = s.subrange(start, end);
    let kind = word_kind(lexeme);
    Step {
        next: end,
        line,
        emit: Emit::Token(TokenView { kind, lexeme, literal: word_literal(kind), line }),
    }
}

/// Recognises the lexeme that begins at `start`, on line `line`.
pub open spec fn step(s: Seq<char>, start: int, line: int) -> Step
    recommends
        0 <= start < s.len(),
{
    let c = s[start];
    if punctuation(c) is Some {
        plain(s, start, start + 1, line, punctuation(c)->0)
    } else if operator(c) is Some {
        let kinds = operator(c)->0;
        if has_char(s, start + 1, '=') {
            plain(s, start, start + 2, line, kinds.1)
        } else {
            plain(s, start, start + 1, line, kinds.0)
        }
    } else if c == '/' {
        slash_step(s, start, line)
    } else if c == ' ' || c == '\r' || c == '\t' {
        skip(start + 1, line)
    } else if c == '\n' {
        skip(start + 1, line + 1)
    } else if c == '"' {
        string_step(s, start, line)
    } else if is_digit(c) {
        number_step(s, start, line)
    } else if is_alpha(c) {
        word_step(s, start, line)
    } else {
        Step {
            next: start + 1,
            line,
            emit: Emit::Diagnostic(DiagnosticView { line, message: unexpected_character() }),
        }
    }
}

/// What a scan yields: the tokens, for each token the half-open span of the
/// source that it was made of, and the diagnostics.
pub ghost struct Scan {
    pub tokens: Seq<TokenView>,
    pub spans: Seq<(int, int)>,
    pub diagnostics: Seq<DiagnosticView>,
}

/// The end-of-input token on line `line`.
pub open spec fn eof(line: int) -> TokenView {
    TokenView { kind: TokenType::Eof, lexeme: Seq::empty(), literal: None, line }
}

/// The token that a step emitted, as a sequence of at most one.
pub open spec fn emitted_tokens(emit: Emit) -> Seq<TokenView> {
    match emit {
        Emit::Token(t) => seq![t],
        _ => Seq::empty(),
    }
}

/// The span of the token that a step over `s[start..next]` emitted.
pub open spec fn emitted_spans(emit: Emit, start: int, next: int) -> Seq<(int, int)> {
    match emit {
        Emit::Token(_) => seq![(start, next)],
        _ => Seq::empty(),
    }
}

/// The diagnostic that a step emitted, as a sequence of at most one.
pub open spec fn emitted_diagnostics(emit: Emit) -> Seq<DiagnosticView> {
    match emit {
        Emit::Diagnostic(d) => seq![d],
        _ => Seq::empty(),
    }
}

/// `rest`, with what was recognised in `s[start..next]` put in front.
pub open spec fn prepend(emit: Emit, start: int, next: int, rest: Scan) -> Scan {
    Scan {
        tokens: emitted_tokens(emit) + rest.tokens,
        spans: emitted_spans(emit, start, next) + rest.spans,
        diagnostics: emitted_diagnostics(emit) + rest.diagnostics,
    }
}

/// What scanning `s` from position `pos` on line `line` yields.
pub open spec fn scan_from(s: Seq<char>, pos: int, line: int) -> Scan
    decreases s.len() - pos,
    via scan_from_terminates
{
    if 0 <= pos < s.len() {
        let st = step(s, pos, line);
        prepend(st.emit, pos, st.next, scan_from(s, st.next, st.line))
    } else {
        Scan {
            tokens: seq![eof(line)],
            spans: seq![(s.len() as int, s.len() as int)],
            diagnostics: Seq::empty(),
        }
    }
}

#[via_fn]
proof fn scan_from_terminates(s: Seq<char>, pos: int, line: int) {
    if 0 <= pos < s.len() {
        lemma_step_advances(s, pos, line);
    }
}

/// What scanning the whole of `s` yields.
pub open spec fn scan(s: Seq<char>) -> Scan {
    scan_from(s, 0, 1)
}

/// A run ends at or after its start and within the text.
pub proof fn lemma_run_end_bounds(s: Seq<char>, from: int, class: CharClass)
    requires
        0 <= from <= s.len(),
    ensures
        from <= run_end(s, from, class) <= s.len(),
    decreases s.len() - from,
{
    if from < s.len() && in_class(class, s[from]) {
        lemma_run_end_bounds(s, from + 1, class);
    }
}

/// The close of a block comment lies at or after the start of the search;
/// where one is found, both of its characters are within the text.
pub proof fn lemma_comment_close_bounds(s: Seq<char>, from: int)
    requires
        0 <= from <= s.len(),
    ensures
        from <= comment_close(s, from) <= s.len(),
        comment_close(s, from) < s.len() ==> comment_close(s, from) + 2 <= s.len(),
    decreases s.len() - from,
{
    if from < s.len() && !(s[from] == '*' && from + 1 < s.len() && s[from + 1] == '/') {
        lemma_comment_close_bounds(s, from + 1);
    }
}

/// Where a block comment closes, a `*` and a `/` stand, and no `*/` begins
/// between the start of the search and the close.
pub proof fn lemma_comment_close_is_first(s: Seq<char>, from: int)
    requires
        0 <= from <= s.len(),
    ensures
        comment_close(s, from) < s.len() ==> s[comment_close(s, from)] == '*' && s[comment_close(
            s,
            from,
        ) + 1] == '/',
        forall|i: int|
            from <= i < comment_close(s, from) ==> !(#[trigger] s[i] == '*' && i + 1 < s.len()
                && s[i + 1] == '/'),
    decreases s.len() - from,
{
    if from < s.len() && !(s[from] == '*' && from + 1 < s.len() && s[from + 1] == '/') {
        lemma_comment_close_is_first(s, from + 1);
    }
}

/// Every step consumes at least one character and stays within the text.
pub proof fn lemma_step_advances(s: Seq<char>, start: int, line: int)
    requires
        0 <= start < s.len(),
    ensures
        start < step(s, start, line).next <= s.len(),
{
    lemma_run_end_bounds(s, start + 1, CharClass::StringText);
    lemma_run_end_bounds(s, start, CharClass::Digit);
    lemma_run_end_bounds(s, start + 1, CharClass::Digit);
    lemma_run_end_bounds(s, start, CharClass::IdentifierPart);
    lemma_run_end_bounds(s, start + 1, CharClass::IdentifierPart);
    if start + 2 <= s.len() {
        lemma_run_end_bounds(s, start + 2, CharClass::CommentText);
        lemma_comment_close_bounds(s, start + 2);
    }
    let whole = run_end(s, start, CharClass::Digit);
    if whole + 1 <= s.len() {
        lemma_run_end_bounds(s, whole + 1, CharClass::Digit);
    }
}

/// Every character of a run belongs to its class, and the run ends where the
/// text ends or a character outside the class stands.
pub proof fn lemma_run_end_is_maximal(s: Seq<char>, from: int, class: CharClass)
    requires
        0 <= from <= s.len(),
    ensures
        forall|i: int| from <= i < run_end(s, from, class) ==> in_class(class, #[trigger] s[i]),
        run_end(s, from, class) == s.len() || !in_class(class, s[run_end(s, from, class)]),
    decreases s.len() - from,
{
    if from < s.len() && in_class(class, s[from]) {
        lemma_run_end_is_maximal(s, from + 1, class);
    }
}

/// A stretch without a line feed counts none.
pub proof fn lemma_newlines_none(s: Seq<char>, from: int, to: int)
    requires
        0 <= from,
        to <= s.len(),
        forall|i: int| from <= i < to ==> #[trigger] s[i] != '\n',
    ensures
        newlines(s, from, to) == 0,
    decreases to - from,
{
    if from < to {
        lemma_newlines_none(s, from, to - 1);
    }
}

/// Counting line feeds over two adjoining stretches adds up.
pub proof fn lemma_newlines_split(s: Seq<char>, from: int, mid: int, to: int)
    requires
        from <= mid <= to,
    ensures
        newlines(s, from, to) == newlines(s, from, mid) + newlines(s, mid, to),
    decreases to - mid,
{
    if mid < to {
        lemma_newlines_split(s, from, mid, to - 1);
    }
}

/// A stretch holds no more line feeds than characters.
pub proof fn lemma_newlines_bounds(s: Seq<char>, from: int, to: int)
    ensures
        0 <= newlines(s, from, to),
        from <= to ==> newlines(s, from, to) <= to - from,
    decreases to - from,
{
    if from < to {
        lemma_newlines_bounds(s, from, to - 1);
    }
}

/// A run of digits, of identifier characters or of comment text holds no line
/// feed.
pub proof fn lemma_run_without_newline(s: Seq<char>, from: int, class: CharClass)
    requires
        0 <= from <= s.len(),
        class != CharClass::StringText,
    ensures
        newlines(s, from, run_end(s, from, class)) == 0,
{
    lemma_run_end_is_maximal(s, from, class);
    lemma_run_end_bounds(s, from, class);
    lemma_newlines_none(s, from, run_end(s, from, class));
}

} // verus!
