//! The executable scanner, proved to compute the model of [`crate::grammar`].

use vstd::prelude::*;
use vstd::std_specs::iter::IteratorSpec;
use vstd::string::StringExecFns;
use vstd::string::StrSliceExecFns;
use crate::grammar::{
    block_comment_step, comment_close, emitted_diagnostics, emitted_tokens, has_char, in_class,
    is_alpha, is_digit, keyword, lemma_comment_close_bounds, lemma_run_end_bounds,
    lemma_run_without_newline, lemma_step_advances, newlines, number_end, number_step, operator,
    punctuation, run_end, scan, scan_from, slash_step, step, string_step, unexpected_character,
    unterminated_block_comment, unterminated_string, word_step, CharClass,
};
use crate::token::{
    diagnostic_views, literal_view, token_views, Diagnostic, DiagnosticView, Literal,
    LiteralView, Token, TokenType, TokenView,
};

verus! {

/// A single-use scanner over one source text.
///
/// Positions count characters, not bytes. The scanner keeps the source both
/// as text, from which lexemes are cut, and as a vector of its characters,
/// which the cursor reads.
pub struct Scanner {
    source: String,
    chars: Vec<char>,
    tokens: Vec<Token>,
    diagnostics: Vec<Diagnostic>,
    start: usize,
    start_line: usize,
    current: usize,
    line: usize,
}

/// The mathematical state of a [`Scanner`]. Positions count characters.
pub ghost struct ScannerView {
    /// The text being scanned.
    pub source: Seq<char>,
    /// The tokens emitted so far.
    pub tokens: Seq<TokenView>,
    /// The diagnostics emitted so far.
    pub diagnostics: Seq<DiagnosticView>,
    /// Where the lexeme being recognised began.
    pub start: int,
    /// The line on which it began.
    pub start_line: int,
    /// The next character to consume.
    pub current: int,
    /// The line of that character.
    pub line: int,
}

/// Why a cursor operation could not be carried out.
#[derive(Debug, Clone, Copy, PartialEq, Eq, Structural)]
pub enum ScanError {
    /// A character was asked for at the end of the source.
    UnexpectedEof,
}

impl ScanError {
    /// The error in words.
    pub fn message(&self) -> (text: &'static str)
        ensures
            text@ == "Unexpected EOF while reading"@,
    {
        match self {
            ScanError::UnexpectedEof => "Unexpected EOF while reading",
        }
    }
}

/// What a complete scan hands back.
#[derive(Debug, Clone, PartialEq, Eq)]
pub struct ScanOutput {
    pub tokens: Vec<Token>,
    pub diagnostics: Vec<Diagnostic>,
}

/// The bounds of a scanner's state: the source is short enough for every line
/// number to fit in a `usize`, the positions lie within the source, in order,
/// and the line numbers are at least 1, in order, and no more than one above
/// the number of characters consumed.
pub open spec fn in_bounds(v: ScannerView) -> bool {
    &&& v.source.len() < usize::MAX
    &&& 0 <= v.start <= v.current <= v.source.len()
    &&& 1 <= v.start_line <= v.line <= v.current + 1
}

/// The state after recognising the lexeme at `v.current`.
pub open spec fn after_step(v: ScannerView) -> ScannerView {
    let st = step(v.source, v.current, v.line);
    ScannerView {
        source: v.source,
        tokens: v.tokens + emitted_tokens(st.emit),
        diagnostics: v.diagnostics + emitted_diagnostics(st.emit),
        start: v.current,
        start_line: v.line,
        current: st.next,
        line: st.line,
    }
}

/// The state after appending the token of kind `kind` and literal `literal`,
/// made of the text between `v.start` and `v.current`.
pub open spec fn after_token(v: ScannerView, kind: TokenType, literal: Option<LiteralView>) -> ScannerView {
    ScannerView {
        tokens: v.tokens.push(
            TokenView {
                kind,
                lexeme: v.source.subrange(v.start, v.current),
                literal,
                line: v.start_line,
            },
        ),
        ..v
    }
}

/// The state after reporting `message` on the current line.
pub open spec fn after_report(v: ScannerView, message: Seq<char>) -> ScannerView {
    ScannerView {
        diagnostics: v.diagnostics.push(DiagnosticView { line: v.line, message }),
        ..v
    }
}

fn digit(c: char) -> (r: bool)
    ensures
        r == is_digit(c),
{
    '0' <= c && c <= '9'
}

fn alpha(c: char) -> (r: bool)
    ensures
        r == is_alpha(c),
{
    ('a' <= c && c <= 'z') || ('A' <= c && c <= 'Z') || c == '_'
}

fn class_holds(class: CharClass, c: char) -> (r: bool)
    ensures
        r == in_class(class, c),
{
    match class {
        CharClass::Digit => digit(c),
        CharClass::IdentifierPart => alpha(c) || digit(c),
        CharClass::CommentText => c != '\n',
        CharClass::StringText => c != '"',
    }
}

fn punctuation_kind(c: char) -> (r: Option<TokenType>)
    ensures
        r == punctuation(c),
{
    match c {
        '(' => Some(TokenType::LeftParen),
        ')' => Some(TokenType::RightParen),
        '{' => Some(TokenType::LeftBrace),
        '}' => Some(TokenType::RightBrace),
        ',' => Some(TokenType::Comma),
        '.' => Some(TokenType::Dot),
        '-' => Some(TokenType::Minus),
        '+' => Some(TokenType::Plus),
        ';' => Some(TokenType::Semicolon),
        '*' => Some(TokenType::Star),
        _ => None,
    }
}

fn operator_kinds(c: char) -> (r: Option<(TokenType, TokenType)>)
    ensures
        r == operator(c),
{
    match c {
        '!' => Some((TokenType::Bang, TokenType::BangEqual)),
        '=' => Some((TokenType::Equal, TokenType::EqualEqual)),
        '<' => Some((TokenType::Less, TokenType::LessEqual)),
        '>' => Some((TokenType::Greater, TokenType::GreaterEqual)),
        _ => None,
    }
}

/// The characters of `source`, in order.
fn characters(source: &str) -> (chars: Vec<char>)
    ensures
        chars@ == source@,
{
    broadcast use vstd::string::group_string_axioms;

    let mut chars: Vec<char> = Vec::new();
    let mut rest = source.chars();
    let mut done = false;
    while !done
        invariant
            chars@ + rest.remaining() == source@,
            done ==> rest.remaining().len() == 0,
        decreases source@.len() - chars@.len() + if done { 0int } else { 1int },
    {
        match rest.next() {
            Some(c) => {
                chars.push(c);
            },
            None => {
                done = true;
            },
        }
    }
    chars
}

/// Whether two texts hold the same characters.
fn same_text(a: &str, b: &str) -> (r: bool)
    ensures
        r == (a@ == b@),
{
    let n = a.unicode_len();
    if n != b.unicode_len() {
        return false;
    }
    let mut i: usize = 0;
    while i < n
        invariant
            n == a@.len(),
            n == b@.len(),
            i <= n,
            forall|j: int| 0 <= j < i ==> a@[j] == b@[j],
        decreases n - i,
    {
        if a.get_char(i) != b.get_char(i) {
            return false;
        }
        i += 1;
    }
    assert(a@ =~= b@);
    true
}

/// Looks `lexeme` up in the keyword table.
pub fn lookup_keyword(lexeme: &str) -> (r: Option<TokenType>)
    ensures
        r == keyword(lexeme@),
{
    if same_text(lexeme, "and") {
        Some(TokenType::And)
    } else if same_text(lexeme, "class") {
        Some(TokenType::Class)
    } else if same_text(lexeme, "else") {
        Some(TokenType::Else)
    } else if same_text(lexeme, "false") {
        Some(TokenType::False)
    } else if same_text(lexeme, "for") {
        Some(TokenType::For)
    } else if same_text(lexeme, "fun") {
        Some(TokenType::Fun)
    } else if same_text(lexeme, "if") {
        Some(TokenType::If)
    } else if same_text(lexeme, "nil") {
        Some(TokenType::Nil)
    } else if same_text(lexeme, "or") {
        Some(TokenType::Or)
    } else if same_text(lexeme, "print") {
        Some(TokenType::Print)
    } else if same_text(lexeme, "return") {
        Some(TokenType::Return)
    } else if same_text(lexeme, "super") {
        Some(TokenType::Super)
    } else if same_text(lexeme, "this") {
        Some(TokenType::This)
    } else if same_text(lexeme, "true") {
        Some(TokenType::True)
    } else if same_text(lexeme, "var") {
        Some(TokenType::Var)
    } else if same_text(lexeme, "while") {
        Some(TokenType::While)
    } else {
        None
    }
}

impl View for Scanner {
    type V = ScannerView;

    closed spec fn view(&self) -> ScannerView {
        ScannerView {
            source: self.source@,
            tokens: token_views(self.tokens@),
            diagnostics: diagnostic_views(self.diagnostics@),
            start: self.start as int,
            start_line: self.start_line as int,
            current: self.current as int,
            line: self.line as int,
        }
    }
}

impl Scanner {
    /// Whether the two forms in which the scanner keeps its source agree.
    pub closed spec fn consistent(&self) -> bool {
        self.chars@ == self.source@
    }

    /// The invariant of a scanner: its state is in bounds and its two forms
    /// of the source agree.
    pub open spec fn wf(&self) -> bool {
        self.consistent() && in_bounds(self@)
    }

    /// A scanner at the start of `source`, on line 1, with nothing emitted.
    ///
    /// The source must hold fewer than `usize::MAX` characters, so that one
    /// more than the number of its line feeds is a `usize`.
    pub fn new(source: &str) -> (scanner: Self)
        requires
            source@.len() < usize::MAX,
        ensures
            scanner.wf(),
            scanner@ == (ScannerView {
                source: source@,
                tokens: Seq::empty(),
                diagnostics: Seq::empty(),
                start: 0,
                start_line: 1,
                current: 0,
                line: 1,
            }),
    {
        let scanner = Self {
            source: String::from_str(source),
            chars: characters(source),
            tokens: Vec::new(),
            diagnostics: Vec::new(),
            start: 0,
            start_line: 1,
            current: 0,
            line: 1,
        };
        assert(scanner@.tokens =~= Seq::empty());
        assert(scanner@.diagnostics =~= Seq::empty());
        scanner
    }

    /// Whether every character has been consumed.
    pub fn is_at_end(&self) -> (r: bool)
        requires
            self.wf(),
        ensures
            r == (self@.current >= self@.source.len()),
    {
        self.current >= self.chars.len()
    }

    fn char_at(&self, at: usize) -> (c: char)
        requires
            self.wf(),
            at < self@.source.len(),
        ensures
            c == self@.source[at as int],
    {
        self.chars[at]
    }

    fn text(&self, from: usize, to: usize) -> (r: String)
        requires
            self.wf(),
            from <= to <= self@.source.len(),
        ensures
            r@ == self@.source.subrange(from as int, to as int),
    {
        String::from_str(self.source.as_str().substring_char(from, to))
    }

    /// Consumes the next character and returns it. At the end of the source
    /// nothing changes and the error says so.
    pub fn advance(&mut self) -> (c: Result<char, ScanError>)
        requires
            old(self).wf(),
        ensures
            final(self).wf(),
            old(self)@.current < old(self)@.source.len() ==> c == Ok::<char, ScanError>(
                old(self)@.source[old(self)@.current],
            ) && final(self)@ == (ScannerView { current: old(self)@.current + 1, ..old(self)@ }),
            old(self)@.current >= old(self)@.source.len() ==> c == Err::<char, ScanError>(
                ScanError::UnexpectedEof,
            ) && final(self)@ == old(self)@,
    {
        if self.is_at_end() {
            Err(ScanError::UnexpectedEof)
        } else {
            let c = self.char_at(self.current);
            self.current += 1;
            Ok(c)
        }
    }

    /// The next character, or NUL at the end of the source.
    pub fn peek(&self) -> (c: char)
        requires
            self.wf(),
        ensures
            c == if self@.current < self@.source.len() {
                self@.source[self@.current]
            } else {
                '\0'
            },
    {
        if self.is_at_end() {
            '\0'
        } else {
            self.char_at(self.current)
        }
    }

    /// The character after the next, or NUL where the source has none.
    pub fn peek_next(&self) -> (c: char)
        requires
            self.wf(),
        ensures
            c == if self@.current + 1 < self@.source.len() {
                self@.source[self@.current + 1]
            } else {
                '\0'
            },
    {
        if self.current + 1 >= self.chars.len() {
            '\0'
        } else {
            self.char_at(self.current + 1)
        }
    }

    /// Consumes the next character if it is `expected`.
    pub fn match_char(&mut self, expected: char) -> (matched: bool)
        requires
            old(self).wf(),
        ensures
            final(self).wf(),
            matched == has_char(old(self)@.source, old(self)@.current, expected),
            final(self)@ == (ScannerView {
                current: old(self)@.current + if matched { 1int } else { 0int },
                ..old(self)@
            }),
    {
        if self.is_at_end() {
            false
        } else if self.char_at(self.current) != expected {
            false
        } else {
            self.current += 1;
            true
        }
    }

    /// Appends a token of kind `token_type` with `literal`. Its lexeme is the
    /// source between the start of the current lexeme and the cursor, its
    /// line the one on which the lexeme began.
    pub fn add_token(&mut self, token_type: TokenType, literal: Option<Literal>)
        requires
            old(self).wf(),
        ensures
            final(self).wf(),
            final(self)@ == after_token(old(self)@, token_type, literal_view(literal)),
    {
        let lexeme = self.text(self.start, self.current);
        let token = Token::new(token_type, lexeme, literal, self.start_line);
        self.tokens.push(token);
        assert(final(self)@.tokens =~= old(self)@.tokens.push(token@));
    }

    /// Appends a diagnostic for the current line.
    fn report(&mut self, message: &str)
        requires
            old(self).wf(),
        ensures
            final(self).wf(),
            final(self)@ == after_report(old(self)@, message@),
    {
        let diagnostic = Diagnostic { line: self.line, message: String::from_str(message) };
        self.diagnostics.push(diagnostic);
        assert(final(self)@.diagnostics =~= old(self)@.diagnostics.push(diagnostic@));
    }

    /// Consumes the longest run of characters of `class`, counting its line
    /// feeds.
    fn consume_run(&mut self, class: CharClass)
        requires
            old(self).wf(),
        ensures
            final(self).wf(),
            final(self)@ == (ScannerView {
                current: run_end(old(self)@.source, old(self)@.current, class),
                line: old(self)@.line + newlines(
                    old(self)@.source,
                    old(self)@.current,
                    run_end(old(self)@.source, old(self)@.current, class),
                ),
                ..old(self)@
            }),
    {
        let mut running = true;
        while running
            invariant
                self.wf(),
                self@ == (ScannerView { current: self@.current, line: self@.line, ..old(self)@ }),
                old(self)@.current <= self@.current,
                run_end(self@.source, self@.current, class) == run_end(
                    old(self)@.source,
                    old(self)@.current,
                    class,
                ),
                self@.line == old(self)@.line + newlines(
                    self@.source,
                    old(self)@.current,
                    self@.current,
                ),
                !running ==> run_end(self@.source, self@.current, class) == self@.current,
            decreases self@.source.len() - self@.current + if running { 1int } else { 0int },
        {
            if self.is_at_end() {
                running = false;
            } else {
                let c = self.char_at(self.current);
                if class_holds(class, c) {
                    if c == '\n' {
                        self.line += 1;
                    }
                    self.current += 1;
                } else {
                    running = false;
                }
            }
        }
    }

    /// Skips a block comment whose `/*` has been consumed.
    fn block_comment(&mut self)
        requires
            old(self).wf(),
            old(self)@.current == old(self)@.start + 2,
            old(self)@.line == old(self)@.start_line,
        ensures
            final(self).wf(),
            final(self)@ == ({
                let v = old(self)@;
                let st = block_comment_step(v.source, v.start, v.line);
                ScannerView {
                    diagnostics: v.diagnostics + emitted_diagnostics(st.emit),
                    current: st.next,
                    line: st.line,
                    ..v
                }
            }),
    {
        let ghost v = old(self)@;
        let mut closed = false;
        while !closed && !self.is_at_end()
            invariant
                self.wf(),
                self@ == (ScannerView { current: self@.current, line: self@.line, ..v }),
                v.current <= self@.current,
                comment_close(v.source, self@.current) == comment_close(v.source, v.current),
                self@.line == v.line + newlines(v.source, v.current, self@.current),
                closed ==> comment_close(v.source, self@.current) == self@.current
                    && self@.current < v.source.len(),
            decreases v.source.len() - self@.current + if closed { 0int } else { 1int },
        {
            let c = self.char_at(self.current);
            if c == '*' && self.peek_next() == '/' {
                closed = true;
            } else {
                if c == '\n' {
                    self.line += 1;
                }
                self.current += 1;
            }
        }
        proof {
            lemma_comment_close_bounds(v.source, v.current);
        }
        if closed {
            self.current += 2;
            assert(self@.diagnostics =~= v.diagnostics + Seq::empty());
        } else {
            self.report("Unterminated block comment.");
            assert(self@.diagnostics =~= v.diagnostics + seq![
                DiagnosticView { line: self@.line, message: unterminated_block_comment() },
            ]);
        }
    }

    /// Recognises what begins with a `/` that has been consumed.
    fn slash(&mut self)
        requires
            old(self).wf(),
            old(self)@.current == old(self)@.start + 1,
            old(self)@.line == old(self)@.start_line,
        ensures
            final(self).wf(),
            final(self)@ == ({
                let v = old(self)@;
                let st = slash_step(v.source, v.start, v.line);
                ScannerView {
                    tokens: v.tokens + emitted_tokens(st.emit),
                    diagnostics: v.diagnostics + emitted_diagnostics(st.emit),
                    current: st.next,
                    line: st.line,
                    ..v
                }
            }),
    {
        let ghost v = old(self)@;
        if self.match_char('/') {
            self.consume_run(CharClass::CommentText);
            proof {
                lemma_run_without_newline(v.source, v.start + 2, CharClass::CommentText);
            }
            assert(self@.tokens =~= v.tokens + Seq::empty());
            assert(self@.diagnostics =~= v.diagnostics + Seq::empty());
        } else if self.match_char('*') {
            self.block_comment();
            assert(self@.tokens =~= v.tokens + Seq::empty());
        } else {
            self.add_token(TokenType::Slash, None);
            assert(self@.tokens =~= v.tokens + seq![self@.tokens.last()]);
            assert(self@.diagnostics =~= v.diagnostics + Seq::empty());
        }
    }

    /// Recognises a string whose opening quote has been consumed.
    fn string(&mut self)
        requires
            old(self).wf(),
            old(self)@.current == old(self)@.start + 1,
            old(self)@.line == old(self)@.start_line,
        ensures
            final(self).wf(),
            final(self)@ == ({
                let v = old(self)@;
                let st = string_step(v.source, v.start, v.line);
                ScannerView {
                    tokens: v.tokens + emitted_tokens(st.emit),
                    diagnostics: v.diagnostics + emitted_diagnostics(st.emit),
                    current: st.next,
                    line: st.line,
                    ..v
                }
            }),
    {
        let ghost v = old(self)@;
        self.consume_run(CharClass::StringText);
        proof {
            lemma_run_end_bounds(v.source, v.current, CharClass::StringText);
        }
        if self.is_at_end() {
            self.report("Unterminated string.");
            assert(self@.tokens =~= v.tokens + Seq::empty());
            assert(self@.diagnostics =~= v.diagnostics + seq![
                DiagnosticView { line: self@.line, message: unterminated_string() },
            ]);
        } else {
            self.current += 1;
            let interior = self.text(self.start + 1, self.current - 1);
            self.add_token(TokenType::String, Some(Literal::StringValue(interior)));
            assert(self@.tokens =~= v.tokens + seq![self@.tokens.last()]);
            assert(self@.diagnostics =~= v.diagnostics + Seq::empty());
        }
    }

    /// Recognises a number whose first digit has been consumed.
    fn number(&mut self)
        requires
            old(self).wf(),
            old(self)@.current == old(self)@.start + 1,
            old(self)@.line == old(self)@.start_line,
            is_digit(old(self)@.source[old(self)@.start]),
        ensures
            final(self).wf(),
            final(self)@ == ({
                let v = old(self)@;
                let st = number_step(v.source, v.start, v.line);
                ScannerView {
                    tokens: v.tokens + emitted_tokens(st.emit),
                    current: st.next,
                    line: st.line,
                    ..v
                }
            }),
    {
        let ghost v = old(self)@;
        self.consume_run(CharClass::Digit);
        proof {
            lemma_run_end_bounds(v.source, v.current, CharClass::Digit);
            lemma_run_without_newline(v.source, v.current, CharClass::Digit);
        }
        if self.peek() == '.' && digit(self.peek_next()) {
            let ghost whole = self@.current;
            self.current += 1;
            self.consume_run(CharClass::Digit);
            proof {
                lemma_run_end_bounds(v.source, whole + 1, CharClass::Digit);
                lemma_run_without_newline(v.source, whole + 1, CharClass::Digit);
            }
        }
        assert(self@.current == number_end(v.source, v.start));
        let lexeme = self.text(self.start, self.current);
        self.add_token(TokenType::Number, Some(Literal::NumberValue(lexeme)));
        assert(self@.tokens =~= v.tokens + seq![self@.tokens.last()]);
    }

    /// Recognises an identifier or keyword whose first character has been
    /// consumed.
    fn identifier(&mut self)
        requires
            old(self).wf(),
            old(self)@.current == old(self)@.start + 1,
            old(self)@.line == old(self)@.start_line,
            is_alpha(old(self)@.source[old(self)@.start]),
        ensures
            final(self).wf(),
            final(self)@ == ({
                let v = old(self)@;
                let st = word_step(v.source, v.start, v.line);
                ScannerView {
                    tokens: v.tokens + emitted_tokens(st.emit),
                    current: st.next,
                    line: st.line,
                    ..v
                }
            }),
    {
        let ghost v = old(self)@;
        self.consume_run(CharClass::IdentifierPart);
        proof {
            lemma_run_end_bounds(v.source, v.current, CharClass::IdentifierPart);
            lemma_run_without_newline(v.source, v.current, CharClass::IdentifierPart);
        }
        let lexeme = self.text(self.start, self.current);
        match lookup_keyword(lexeme.as_str()) {
            Some(TokenType::True) => self.add_token(TokenType::True, Some(Literal::BoolValue(true))),
            Some(TokenType::False) => self.add_token(
                TokenType::False,
                Some(Literal::BoolValue(false)),
            ),
            Some(TokenType::Nil) => self.add_token(TokenType::Nil, Some(Literal::NilValue)),
            Some(kind) => self.add_token(kind, None),
            None => self.add_token(TokenType::Identifier, None),
        }
        assert(self@.tokens =~= v.tokens + seq![self@.tokens.last()]);
    }

    /// Recognises the lexeme at the cursor: it marks the cursor as the start
    /// of the lexeme, consumes the lexeme, and appends the token or the
    /// diagnostic that it yields, if any. At the end of the source nothing
    /// changes and the error says so.
    pub fn scan_token(&mut self) -> (scanned: Result<(), ScanError>)
        requires
            old(self).wf(),
        ensures
            final(self).wf(),
            scanned is Ok <==> old(self)@.current < old(self)@.source.len(),
            scanned is Ok ==> final(self)@ == after_step(old(self)@),
            scanned is Err ==> scanned == Err::<(), ScanError>(ScanError::UnexpectedEof)
                && final(self)@ == old(self)@,
    {
        if self.is_at_end() {
            return Err(ScanError::UnexpectedEof);
        }
        self.start = self.current;
        self.start_line = self.line;
        let ghost v = self@;
        let c = self.char_at(self.current);
        self.current += 1;
        if let Some(kind) = punctuation_kind(c) {
            self.add_token(kind, None);
            assert(self@.tokens =~= v.tokens + seq![self@.tokens.last()]);
            assert(self@.diagnostics =~= v.diagnostics + Seq::empty());
        } else if let Some(kinds) = operator_kinds(c) {
            if self.match_char('=') {
                self.add_token(kinds.1, None);
            } else {
                self.add_token(kinds.0, None);
            }
            assert(self@.tokens =~= v.tokens + seq![self@.tokens.last()]);
            assert(self@.diagnostics =~= v.diagnostics + Seq::empty());
        } else if c == '/' {
            self.slash();
        } else if c == ' ' || c == '\r' || c == '\t' {
            assert(self@.tokens =~= v.tokens + Seq::empty());
            assert(self@.diagnostics =~= v.diagnostics + Seq::empty());
        } else if c == '\n' {
            self.line += 1;
            assert(self@.tokens =~= v.tokens + Seq::empty());
            assert(self@.diagnostics =~= v.diagnostics + Seq::empty());
        } else if c == '"' {
            self.string();
        } else if digit(c) {
            self.number();
            assert(self@.diagnostics =~= v.diagnostics + Seq::empty());
        } else if alpha(c) {
            self.identifier();
            assert(self@.diagnostics =~= v.diagnostics + Seq::empty());
        } else {
            self.report("Unexpected character.");
            assert(self@.tokens =~= v.tokens + Seq::empty());
            assert(self@.diagnostics =~= v.diagnostics + seq![
                DiagnosticView { line: self@.line, message: unexpected_character() },
            ]);
        }
        Ok(())
    }

    /// Scans the rest of the source: recognises lexemes from the cursor to
    /// the end, appends the end-of-input token, and hands back every token
    /// and diagnostic emitted, the end-of-input token last. For a scanner fresh
    /// from [`Scanner::new`] these are exactly those of `scan(source)`.
    pub fn scan_tokens(self) -> (out: ScanOutput)
        requires
            self.wf(),
        ensures
            token_views(out.tokens@) == self@.tokens + scan_from(
                self@.source,
                self@.current,
                self@.line,
            ).tokens,
            diagnostic_views(out.diagnostics@) == self@.diagnostics + scan_from(
                self@.source,
                self@.current,
                self@.line,
            ).diagnostics,
            out.tokens.len() >= 1,
            out.tokens[out.tokens.len() - 1].token_type == TokenType::Eof,
    {
        let mut scanner = self;
        let ghost v = scanner@;
        let ghost rest = scan_from(v.source, v.current, v.line);
        while !scanner.is_at_end()
            invariant
                scanner.wf(),
                scanner@.source == v.source,
                scanner@.tokens + scan_from(v.source, scanner@.current, scanner@.line).tokens
                    == v.tokens + rest.tokens,
                scanner@.diagnostics + scan_from(v.source, scanner@.current, scanner@.line).diagnostics
                    == v.diagnostics + rest.diagnostics,
            decreases v.source.len() - scanner@.current,
        {
            let ghost before = scanner@;
            proof {
                lemma_step_advances(before.source, before.current, before.line);
            }
            let _ = scanner.scan_token();
            proof {
                let st = step(before.source, before.current, before.line);
                let tail = scan_from(v.source, st.next, st.line);
                assert(scanner@.tokens + tail.tokens =~= before.tokens + (emitted_tokens(st.emit)
                    + tail.tokens));
                assert(scanner@.diagnostics + tail.diagnostics =~= before.diagnostics + (
                emitted_diagnostics(st.emit) + tail.diagnostics));
            }
        }
        let end = Token::new(TokenType::Eof, String::new(), None, scanner.line);
        scanner.tokens.push(end);
        assert(scanner.tokens@.last().token_type == TokenType::Eof);
        assert(token_views(scanner.tokens@) =~= v.tokens + rest.tokens);
        assert(diagnostic_views(scanner.diagnostics@) =~= v.diagnostics + rest.diagnostics);
        ScanOutput { tokens: scanner.tokens, diagnostics: scanner.diagnostics }
    }
}

/// Whether `out` holds what a complete scan of `source` yields.
pub open spec fn is_scan_of(out: ScanOutput, source: Seq<char>) -> bool {
    &&& token_views(out.tokens@) == scan(source).tokens
    &&& diagnostic_views(out.diagnostics@) == scan(source).diagnostics
}

/// Scans `source` from beginning to end: the tokens and diagnostics that come
/// out are those of `scan(source)`, and the last token is the end-of-input
/// token. As for [`Scanner::new`], the source
/// must hold fewer than `usize::MAX` characters.
pub fn run(source: &str) -> (out: ScanOutput)
    requires
        source@.len() < usize::MAX,
    ensures
        is_scan_of(out, source@),
        out.tokens.len() >= 1,
        out.tokens[out.tokens.len() - 1].token_type == TokenType::Eof,
{
    let scanner = Scanner::new(source);
    let out = scanner.scan_tokens();
    assert(token_views(out.tokens@) =~= scan(source@).tokens);
    assert(diagnostic_views(out.diagnostics@) =~= scan(source@).diagnostics);
    out
}

} // verus!
