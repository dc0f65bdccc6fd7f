//! What holds of every scan, proved over the model of [`crate::grammar`].

use vstd::prelude::*;
use crate::grammar::{
    comment_close, eof, is_alpha, is_alpha_numeric, is_digit, keyword, lemma_comment_close_bounds,
    lemma_comment_close_is_first, lemma_newlines_bounds, lemma_newlines_none,
    lemma_newlines_split, lemma_run_end_bounds, lemma_run_end_is_maximal,
    lemma_run_without_newline, lemma_step_advances, newlines, number_end, operator, run_end,
    scan, scan_from, step, unexpected_character, unterminated_block_comment,
    unterminated_string, CharClass, Emit, Scan,
};
use crate::scanner::{is_scan_of, ScanOutput};
use crate::token::{
    diagnostic_views, token_views, DiagnosticView, LiteralView, TokenType, TokenView,
};

verus! {

/// Whether `kind` is the kind of a reserved word.
pub open spec fn is_reserved(kind: TokenType) -> bool {
    match kind {
        TokenType::And
        | TokenType::Class
        | TokenType::Else
        | TokenType::False
        | TokenType::Fun
        | TokenType::For
        | TokenType::If
        | TokenType::Nil
        | TokenType::Or
        | TokenType::Print
        | TokenType::Return
        | TokenType::Super
        | TokenType::This
        | TokenType::True
        | TokenType::Var
        | TokenType::While => true,
        _ => false,
    }
}

/// The literal that a token of kind `kind` and text `lexeme` carries.
pub open spec fn literal_of(kind: TokenType, lexeme: Seq<char>) -> Option<LiteralView> {
    match kind {
        TokenType::String => Some(LiteralView::Text(lexeme.subrange(1, lexeme.len() - 1))),
        TokenType::Number => Some(LiteralView::Number(lexeme)),
        TokenType::True => Some(LiteralView::Bool(true)),
        TokenType::False => Some(LiteralView::Bool(false)),
        TokenType::Nil => Some(LiteralView::Nil),
        _ => None,
    }
}

/// Whether every character of `text` is a decimal digit.
pub open spec fn all_digits(text: Seq<char>) -> bool {
    forall|i: int| 0 <= i < text.len() ==> is_digit(#[trigger] text[i])
}

/// Decimal text: one or more digits, or one or more digits, a dot, and one or
/// more digits.
pub open spec fn is_decimal(text: Seq<char>) -> bool {
    ||| text.len() > 0 && all_digits(text)
    ||| exists|dot: int|
        0 < dot < text.len() - 1 && #[trigger] text[dot] == '.' && all_digits(
            text.subrange(0, dot),
        ) && all_digits(text.subrange(dot + 1, text.len() as int))
}

/// A word: a letter or `_`, followed by letters, digits and `_` only.
pub open spec fn is_word(text: Seq<char>) -> bool {
    &&& text.len() > 0
    &&& is_alpha(text[0])
    &&& forall|i: int| 0 <= i < text.len() ==> is_alpha_numeric(#[trigger] text[i])
}

/// How the parts of one token agree with each other: the literal is the one
/// that belongs to the kind and the lexeme, a string's lexeme is quoted, a
/// reserved word's lexeme is that word, an identifier's lexeme is a word but
/// no reserved word, a number's lexeme is decimal text, and the end-of-input
/// token has no text.
pub open spec fn coherent(t: TokenView) -> bool {
    &&& t.literal == literal_of(t.kind, t.lexeme)
    &&& t.kind == TokenType::String ==> t.lexeme.len() >= 2 && t.lexeme.first() == '"'
        && t.lexeme.last() == '"'
    &&& is_reserved(t.kind) ==> keyword(t.lexeme) == Some(t.kind)
    &&& t.kind == TokenType::Identifier ==> keyword(t.lexeme) is None
    &&& t.kind == TokenType::Identifier || is_reserved(t.kind) ==> is_word(t.lexeme)
    &&& t.kind == TokenType::Number ==> is_decimal(t.lexeme)
    &&& t.kind == TokenType::Eof ==> t.lexeme.len() == 0
}

/// What holds of a token `t` with span `span` in a scan of `s` that began at
/// `pos` on line `line`: the span lies in the scanned part, the lexeme is the
/// text of the span, the line counts the line feeds before the span, and the
/// token is coherent.
pub open spec fn token_at(s: Seq<char>, pos: int, line: int, t: TokenView, span: (int, int)) -> bool {
    &&& pos <= span.0 <= span.1 <= s.len()
    &&& t.lexeme == s.subrange(span.0, span.1)
    &&& t.line == line + newlines(s, pos, span.0)
    &&& coherent(t)
}

/// The closed set of lexical errors.
pub open spec fn is_lexical_error(message: Seq<char>) -> bool {
    ||| message == unexpected_character()
    ||| message == unterminated_string()
    ||| message == unterminated_block_comment()
}

/// What holds of a diagnostic `d` in a scan of `s` that began at `pos` on
/// line `line`: it names a lexical error, on a line of the scanned part.
pub open spec fn diagnostic_at(s: Seq<char>, pos: int, line: int, d: DiagnosticView) -> bool {
    &&& is_lexical_error(d.message)
    &&& line <= d.line <= line + newlines(s, pos, s.len() as int)
}

/// What holds of a whole scan of `s` from `pos` on line `line`.
pub open spec fn orderly(s: Seq<char>, pos: int, line: int, r: Scan) -> bool {
    &&& r.tokens.len() == r.spans.len()
    &&& r.tokens.len() >= 1
    &&& r.tokens.last() == eof(line + newlines(s, pos, s.len() as int))
    &&& r.spans.last() == (s.len() as int, s.len() as int)
    &&& forall|i: int|
        0 <= i < r.tokens.len() ==> token_at(s, pos, line, #[trigger] r.tokens[i], r.spans[i])
    &&& forall|i: int|
        0 <= i < r.tokens.len() - 1 ==> (#[trigger] r.tokens[i]).kind != TokenType::Eof
            && r.spans[i].0 < r.spans[i].1
    &&& forall|i: int, j: int|
        0 <= i < j < r.spans.len() ==> (#[trigger] r.spans[i]).1 <= (#[trigger] r.spans[j]).0
    &&& forall|k: int|
        0 <= k < r.diagnostics.len() ==> diagnostic_at(s, pos, line, #[trigger] r.diagnostics[k])
    &&& forall|k: int, l: int|
        0 <= k < l < r.diagnostics.len() ==> (#[trigger] r.diagnostics[k]).line <= (
        #[trigger] r.diagnostics[l]).line
}

/// One step consumes at least one character and counts the line feeds that it
/// consumes. A token that it emits began on the step's line, is made of all
/// the text consumed, is coherent, and is not the end-of-input token. A
/// diagnostic that it emits names a lexical error on a line of the text
/// consumed.
pub proof fn lemma_step(s: Seq<char>, start: int, line: int)
    requires
        0 <= start < s.len(),
    ensures
        start < step(s, start, line).next <= s.len(),
        step(s, start, line).line == line + newlines(s, start, step(s, start, line).next),
        match step(s, start, line).emit {
            Emit::Token(t) => {
                &&& t.kind != TokenType::Eof
                &&& t.lexeme == s.subrange(start, step(s, start, line).next)
                &&& t.line == line
                &&& coherent(t)
            },
            Emit::Diagnostic(d) => {
                &&& is_lexical_error(d.message)
                &&& line <= d.line <= step(s, start, line).line
            },
            Emit::Nothing => true,
        },
{
    let st = step(s, start, line);
    lemma_newlines_bounds(s, start, st.next);
    lemma_step_advances(s, start, line);
    lemma_newlines_split(s, start, start + 1, st.next);
    assert(newlines(s, start, start + 1) == newlines(s, start, start) + if s[start] == '\n' {
        1int
    } else {
        0int
    });
    let c = s[start];
    if c == '"' {
        let close = run_end(s, start + 1, CharClass::StringText);
        lemma_run_end_bounds(s, start + 1, CharClass::StringText);
        lemma_run_end_is_maximal(s, start + 1, CharClass::StringText);
        if close < s.len() {
            lemma_newlines_split(s, start + 1, close, close + 1);
            assert(newlines(s, close, close + 1) == newlines(s, close, close));
            let lexeme = s.subrange(start, close + 1);
            assert(lexeme.subrange(1, lexeme.len() - 1) =~= s.subrange(start + 1, close));
        }
    } else if c == '/' {
        if start + 1 < s.len() && s[start + 1] == '/' {
            lemma_run_end_bounds(s, start + 2, CharClass::CommentText);
            lemma_run_without_newline(s, start + 2, CharClass::CommentText);
            lemma_newlines_split(s, start + 1, start + 2, st.next);
            assert(newlines(s, start + 1, start + 2) == newlines(s, start + 1, start + 1));
        } else if start + 1 < s.len() && s[start + 1] == '*' {
            lemma_comment_close_bounds(s, start + 2);
            let close = comment_close(s, start + 2);
            lemma_newlines_split(s, start + 1, start + 2, st.next);
            assert(newlines(s, start + 1, start + 2) == newlines(s, start + 1, start + 1));
            if close < s.len() {
                lemma_comment_close_is_first(s, start + 2);
                lemma_newlines_split(s, start + 2, close, close + 2);
                lemma_newlines_none(s, close, close + 2);
            }
        }
    } else if operator(c) is Some {
        if start + 1 < s.len() && s[start + 1] == '=' {
            assert(newlines(s, start + 1, start + 2) == newlines(s, start + 1, start + 1));
        }
    } else if is_digit(c) {
        lemma_run_end_bounds(s, start, CharClass::Digit);
        lemma_run_end_is_maximal(s, start, CharClass::Digit);
        let whole = run_end(s, start, CharClass::Digit);
        if whole + 1 < s.len() {
            lemma_run_end_bounds(s, whole + 1, CharClass::Digit);
            lemma_run_end_is_maximal(s, whole + 1, CharClass::Digit);
        }
        let end = number_end(s, start);
        lemma_newlines_none(s, start, end);
        let lexeme = s.subrange(start, end);
        if end == whole {
            assert(all_digits(lexeme));
        } else {
            let dot = whole - start;
            assert(lexeme[dot] == '.');
            assert(all_digits(lexeme.subrange(0, dot)));
            assert(all_digits(lexeme.subrange(dot + 1, lexeme.len() as int)));
        }
        assert(is_decimal(lexeme));
    } else if is_alpha(c) {
        lemma_run_without_newline(s, start, CharClass::IdentifierPart);
        lemma_run_end_bounds(s, start, CharClass::IdentifierPart);
        lemma_run_end_is_maximal(s, start, CharClass::IdentifierPart);
        let lexeme = s.subrange(start, run_end(s, start, CharClass::IdentifierPart));
        assert(is_word(lexeme));
    }
}

/// Every scan, from any position and line, is orderly: it ends with the
/// end-of-input token and holds no other, each token is the text of its span
/// and stands on the line of its first character, the spans follow each other
/// in source order, and the diagnostics name lexical errors on lines that
/// never decrease.
pub proof fn lemma_scan_from_orderly(s: Seq<char>, pos: int, line: int)
    requires
        0 <= pos <= s.len(),
    ensures
        orderly(s, pos, line, scan_from(s, pos, line)),
    decreases s.len() - pos,
{
    let r = scan_from(s, pos, line);
    if pos < s.len() {
        let st = step(s, pos, line);
        lemma_step(s, pos, line);
        let rest = scan_from(s, st.next, st.line);
        lemma_scan_from_orderly(s, st.next, st.line);
        lemma_newlines_split(s, pos, st.next, s.len() as int);
        assert forall|i: int| 0 <= i < rest.tokens.len() implies token_at(
            s,
            pos,
            line,
            #[trigger] rest.tokens[i],
            rest.spans[i],
        ) by {
            assert(token_at(s, st.next, st.line, rest.tokens[i], rest.spans[i]));
            lemma_newlines_split(s, pos, st.next, rest.spans[i].0);
        }
        lemma_newlines_bounds(s, pos, st.next);
        assert forall|k: int| 0 <= k < rest.diagnostics.len() implies diagnostic_at(
            s,
            pos,
            line,
            #[trigger] rest.diagnostics[k],
        ) by {
            assert(diagnostic_at(s, st.next, st.line, rest.diagnostics[k]));
        }
        match st.emit {
            Emit::Token(t) => {
                assert(r.diagnostics =~= rest.diagnostics);
                assert(r.tokens == seq![t] + rest.tokens);
                assert(r.spans == seq![(pos, st.next)] + rest.spans);
                assert forall|i: int| 0 <= i < r.tokens.len() implies token_at(
                    s,
                    pos,
                    line,
                    #[trigger] r.tokens[i],
                    r.spans[i],
                ) by {
                    if i > 0 {
                        assert(r.tokens[i] == rest.tokens[i - 1]);
                        assert(r.spans[i] == rest.spans[i - 1]);
                    }
                }
                assert forall|i: int| 0 <= i < r.tokens.len() - 1 implies (
                #[trigger] r.tokens[i]).kind != TokenType::Eof && r.spans[i].0 < r.spans[i].1 by {
                    if i > 0 {
                        assert(r.tokens[i] == rest.tokens[i - 1]);
                        assert(r.spans[i] == rest.spans[i - 1]);
                    }
                }
                assert forall|i: int, j: int| 0 <= i < j < r.spans.len() implies (
                #[trigger] r.spans[i]).1 <= (#[trigger] r.spans[j]).0 by {
                    assert(r.spans[j] == rest.spans[j - 1]);
                    assert(token_at(s, st.next, st.line, rest.tokens[j - 1], rest.spans[j - 1]));
                    if i > 0 {
                        assert(r.spans[i] == rest.spans[i - 1]);
                    }
                }
                assert(r.tokens.last() == rest.tokens.last());
                assert(r.spans.last() == rest.spans.last());
            },
            Emit::Diagnostic(d) => {
                assert(r.tokens =~= rest.tokens);
                assert(r.spans =~= rest.spans);
                assert(r.diagnostics == seq![d] + rest.diagnostics);
                lemma_newlines_bounds(s, st.next, s.len() as int);
                assert forall|k: int| 0 <= k < r.diagnostics.len() implies diagnostic_at(
                    s,
                    pos,
                    line,
                    #[trigger] r.diagnostics[k],
                ) by {
                    if k > 0 {
                        assert(r.diagnostics[k] == rest.diagnostics[k - 1]);
                    }
                }
                assert forall|k: int, l: int| 0 <= k < l < r.diagnostics.len() implies (
                #[trigger] r.diagnostics[k]).line <= (#[trigger] r.diagnostics[l]).line by {
                    assert(r.diagnostics[l] == rest.diagnostics[l - 1]);
                    assert(diagnostic_at(s, st.next, st.line, rest.diagnostics[l - 1]));
                    if k > 0 {
                        assert(r.diagnostics[k] == rest.diagnostics[k - 1]);
                    }
                }
            },
            Emit::Nothing => {
                assert(r.tokens =~= rest.tokens);
                assert(r.spans =~= rest.spans);
                assert(r.diagnostics =~= rest.diagnostics);
            },
        }
    } else {
        assert(newlines(s, pos, s.len() as int) == 0);
        assert(s.subrange(pos, pos) =~= Seq::<char>::empty());
    }
}

/// Terminator: every scan ends with the end-of-input token, which has no
/// text and stands on the last line of the source, and no other token is an
/// end-of-input token.
pub proof fn lemma_terminator(s: Seq<char>)
    ensures
        scan(s).tokens.len() >= 1,
        scan(s).tokens.last() == eof(1 + newlines(s, 0, s.len() as int)),
        forall|i: int|
            0 <= i < scan(s).tokens.len() - 1 ==> (#[trigger] scan(s).tokens[i]).kind
                != TokenType::Eof,
{
    lemma_scan_from_orderly(s, 0, 1);
}

/// Lexeme fidelity: every token has a span within the source, and its lexeme
/// is the source text of that span. The span of every token but the last is
/// not empty, and the spans follow each other in source order without
/// overlap.
pub proof fn lemma_lexeme_fidelity(s: Seq<char>)
    ensures
        scan(s).spans.len() == scan(s).tokens.len(),
        forall|i: int|
            0 <= i < scan(s).tokens.len() ==> {
                let span = scan(s).spans[i];
                &&& 0 <= span.0 <= span.1 <= s.len()
                &&& (#[trigger] scan(s).tokens[i]).lexeme == s.subrange(span.0, span.1)
            },
        forall|i: int|
            0 <= i < scan(s).tokens.len() - 1 ==> (#[trigger] scan(s).spans[i]).0 < scan(
                s,
            ).spans[i].1,
        forall|i: int, j: int|
            0 <= i < j < scan(s).spans.len() ==> (#[trigger] scan(s).spans[i]).1 <= (
            #[trigger] scan(s).spans[j]).0,
{
    lemma_scan_from_orderly(s, 0, 1);
    let r = scan(s);
    assert forall|i: int| 0 <= i < r.tokens.len() - 1 implies (#[trigger] r.spans[i]).0
        < r.spans[i].1 by {
        assert(r.tokens[i].kind != TokenType::Eof);
    }
}

/// Line numbers: the line of every token is 1 plus the number of line feeds
/// in the source before the token's first character.
pub proof fn lemma_line_numbers(s: Seq<char>)
    ensures
        scan(s).spans.len() == scan(s).tokens.len(),
        forall|i: int|
            0 <= i < scan(s).tokens.len() ==> (#[trigger] scan(s).tokens[i]).line == 1
                + newlines(s, 0, scan(s).spans[i].0),
{
    lemma_scan_from_orderly(s, 0, 1);
}

/// Line monotonicity: from one token to any later one the line never
/// decreases, and no line is below 1.
pub proof fn lemma_line_monotonicity(s: Seq<char>)
    ensures
        forall|i: int| 0 <= i < scan(s).tokens.len() ==> (#[trigger] scan(s).tokens[i]).line >= 1,
        forall|i: int, j: int|
            0 <= i <= j < scan(s).tokens.len() ==> (#[trigger] scan(s).tokens[i]).line <= (
            #[trigger] scan(s).tokens[j]).line,
{
    lemma_scan_from_orderly(s, 0, 1);
    let r = scan(s);
    assert forall|i: int| 0 <= i < r.tokens.len() implies (#[trigger] r.tokens[i]).line >= 1 by {
        lemma_newlines_bounds(s, 0, r.spans[i].0);
    }
    assert forall|i: int, j: int| 0 <= i <= j < r.tokens.len() implies (
    #[trigger] r.tokens[i]).line <= (#[trigger] r.tokens[j]).line by {
        if i < j {
            assert(r.spans[i].1 <= r.spans[j].0);
            assert(token_at(s, 0, 1, r.tokens[i], r.spans[i]));
            assert(token_at(s, 0, 1, r.tokens[j], r.spans[j]));
            lemma_newlines_split(s, 0, r.spans[i].0, r.spans[j].0);
            lemma_newlines_bounds(s, r.spans[i].0, r.spans[j].0);
        }
    }
}

/// Determinism: two complete scans of the same source yield the same tokens
/// and the same diagnostics.
pub proof fn lemma_determinism(first: ScanOutput, second: ScanOutput, source: Seq<char>)
    requires
        is_scan_of(first, source),
        is_scan_of(second, source),
    ensures
        token_views(first.tokens@) == token_views(second.tokens@),
        diagnostic_views(first.diagnostics@) == diagnostic_views(second.diagnostics@),
{
}

/// Diagnostics: every diagnostic names one of the three lexical errors, on a
/// line between 1 and the last line of the source, and from one diagnostic
/// to any later one the line never decreases.
pub proof fn lemma_diagnostics(s: Seq<char>)
    ensures
        forall|k: int|
            0 <= k < scan(s).diagnostics.len() ==> {
                let d = #[trigger] scan(s).diagnostics[k];
                &&& is_lexical_error(d.message)
                &&& 1 <= d.line <= 1 + newlines(s, 0, s.len() as int)
            },
        forall|k: int, l: int|
            0 <= k <= l < scan(s).diagnostics.len() ==> (#[trigger] scan(s).diagnostics[k]).line
                <= (#[trigger] scan(s).diagnostics[l]).line,
{
    lemma_scan_from_orderly(s, 0, 1);
    let r = scan(s);
    assert forall|k: int| 0 <= k < r.diagnostics.len() implies is_lexical_error(
        (#[trigger] r.diagnostics[k]).message,
    ) && 1 <= r.diagnostics[k].line <= 1 + newlines(s, 0, s.len() as int) by {
        assert(diagnostic_at(s, 0, 1, r.diagnostics[k]));
    }
}

/// Literals: the literal of every token is determined by its kind and its
/// lexeme. A number carries its lexeme, which is decimal text; a string, whose
/// lexeme is quoted, the text between its quotes; `true`, `false` and `nil`
/// their values; and every other token none.
pub proof fn lemma_literals(s: Seq<char>)
    ensures
        forall|i: int|
            0 <= i < scan(s).tokens.len() ==> {
                let t = #[trigger] scan(s).tokens[i];
                &&& t.literal == literal_of(t.kind, t.lexeme)
                &&& t.kind == TokenType::String ==> t.lexeme.len() >= 2 && t.lexeme.first() == '"'
                    && t.lexeme.last() == '"'
                &&& t.kind == TokenType::Number ==> is_decimal(t.lexeme)
            },
{
    lemma_scan_from_orderly(s, 0, 1);
    let r = scan(s);
    assert forall|i: int| 0 <= i < r.tokens.len() implies coherent(#[trigger] r.tokens[i]) by {
        assert(token_at(s, 0, 1, r.tokens[i], r.spans[i]));
    }
}

/// Keyword exclusivity: the lexeme of an identifier is not in the keyword
/// table, the lexeme of a keyword token is the key of its kind, and both are
/// words.
pub proof fn lemma_keyword_exclusivity(s: Seq<char>)
    ensures
        forall|i: int|
            0 <= i < scan(s).tokens.len() ==> {
                let t = #[trigger] scan(s).tokens[i];
                &&& t.kind == TokenType::Identifier ==> keyword(t.lexeme) is None
                &&& is_reserved(t.kind) ==> keyword(t.lexeme) == Some(t.kind)
                &&& t.kind == TokenType::Identifier || is_reserved(t.kind) ==> is_word(t.lexeme)
            },
{
    lemma_scan_from_orderly(s, 0, 1);
    let r = scan(s);
    assert forall|i: int| 0 <= i < r.tokens.len() implies coherent(#[trigger] r.tokens[i]) by {
        assert(token_at(s, 0, 1, r.tokens[i], r.spans[i]));
    }
}

} // verus!
