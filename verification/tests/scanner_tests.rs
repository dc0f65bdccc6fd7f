use lox_scanner::scanner::{lookup_keyword, run, ScanError, ScanOutput, Scanner};
use lox_scanner::token::{Diagnostic, Literal, Token, TokenType};

fn kinds(out: &ScanOutput) -> Vec<TokenType> {
    out.tokens.iter().map(|t| t.token_type).collect()
}

fn number_value(token: &Token) -> f64 {
    match &token.literal {
        Some(Literal::NumberValue(text)) => text.parse::<f64>().unwrap(),
        other => panic!("not a number literal: {:?}", other),
    }
}

const KEYWORDS: [(&str, TokenType); 16] = [
    ("and", TokenType::And),
    ("class", TokenType::Class),
    ("else", TokenType::Else),
    ("false", TokenType::False),
    ("for", TokenType::For),
    ("fun", TokenType::Fun),
    ("if", TokenType::If),
    ("nil", TokenType::Nil),
    ("or", TokenType::Or),
    ("print", TokenType::Print),
    ("return", TokenType::Return),
    ("super", TokenType::Super),
    ("this", TokenType::This),
    ("true", TokenType::True),
    ("var", TokenType::Var),
    ("while", TokenType::While),
];

const SAMPLES: [&str; 10] = [
    "",
    "(){},.-+;*/!!====<=>=",
    "var orchid = or;",
    "\"hi\nthere\" 12.34",
    "// comment\n1 /* block\nblock */ 2",
    "\"abc",
    "@#var",
    "fun f(a, b) {\n  return a + b * 2.5; // sum\n}\n\nprint f(1, 2) >= 3 and !false;\n",
    "/* never\nclosed",
    "\"caf\u{e9}\" \u{e9} nil\n\n\"\n\n",
];

#[test]
fn operators_and_punctuation() {
    let out = run("(){},.-+;*/!!====<=>=");
    assert_eq!(
        kinds(&out),
        vec![
            TokenType::LeftParen,
            TokenType::RightParen,
            TokenType::LeftBrace,
            TokenType::RightBrace,
            TokenType::Comma,
            TokenType::Dot,
            TokenType::Minus,
            TokenType::Plus,
            TokenType::Semicolon,
            TokenType::Star,
            TokenType::Slash,
            TokenType::Bang,
            TokenType::BangEqual,
            TokenType::EqualEqual,
            TokenType::Equal,
            TokenType::LessEqual,
            TokenType::GreaterEqual,
            TokenType::Eof,
        ]
    );
    assert!(out.diagnostics.is_empty());
    assert!(out.tokens.iter().all(|t| t.literal.is_none() && t.line == 1));
    assert_eq!(out.tokens[12].lexeme, "!=");
    assert_eq!(out.tokens[13].lexeme, "==");
    assert_eq!(out.tokens[14].lexeme, "=");
}

#[test]
fn keywords_vs_identifier() {
    let out = run("var orchid = or;");
    assert_eq!(
        kinds(&out),
        vec![
            TokenType::Var,
            TokenType::Identifier,
            TokenType::Equal,
            TokenType::Or,
            TokenType::Semicolon,
            TokenType::Eof,
        ]
    );
    assert_eq!(out.tokens[1].lexeme, "orchid");
    assert_eq!(out.tokens[1].literal, None);
    assert_eq!(out.tokens[3].lexeme, "or");
    assert!(out.diagnostics.is_empty());
}

#[test]
fn string_with_newline_and_number() {
    let out = run("\"hi\nthere\" 12.34");
    assert_eq!(kinds(&out), vec![TokenType::String, TokenType::Number, TokenType::Eof]);
    let string = &out.tokens[0];
    assert_eq!(string.literal, Some(Literal::StringValue("hi\nthere".to_string())));
    assert_eq!(string.lexeme, "\"hi\nthere\"");
    assert_eq!(string.line, 1);
    match &string.literal {
        Some(Literal::StringValue(text)) => assert_eq!(text.chars().count(), 8),
        _ => unreachable!(),
    }
    let number = &out.tokens[1];
    assert_eq!(number.lexeme, "12.34");
    assert_eq!(number.literal, Some(Literal::NumberValue("12.34".to_string())));
    assert_eq!(number_value(number), 12.34);
    assert_eq!(number.line, 2);
    assert_eq!(out.tokens[2].line, 2);
    assert!(out.diagnostics.is_empty());
}

#[test]
fn comments_ignored() {
    let out = run("// comment\n1 /* block\nblock */ 2");
    assert_eq!(kinds(&out), vec![TokenType::Number, TokenType::Number, TokenType::Eof]);
    assert_eq!(number_value(&out.tokens[0]), 1.0);
    assert_eq!(out.tokens[0].line, 2);
    assert_eq!(number_value(&out.tokens[1]), 2.0);
    assert_eq!(out.tokens[1].line, 3);
    assert_eq!(out.tokens[2].line, 3);
    assert!(out.diagnostics.is_empty());
}

#[test]
fn unterminated_string() {
    let out = run("\"abc");
    assert_eq!(kinds(&out), vec![TokenType::Eof]);
    assert_eq!(
        out.diagnostics,
        vec![Diagnostic { line: 1, message: "Unterminated string.".to_string() }]
    );
    assert_eq!(out.tokens[0].line, 1);
}

#[test]
fn unexpected_character() {
    let out = run("@#var");
    assert_eq!(
        out.diagnostics,
        vec![
            Diagnostic { line: 1, message: "Unexpected character.".to_string() },
            Diagnostic { line: 1, message: "Unexpected character.".to_string() },
        ]
    );
    assert_eq!(kinds(&out), vec![TokenType::Var, TokenType::Eof]);
    assert_eq!(out.tokens[0].lexeme, "var");
}

#[test]
fn empty_source_yields_only_eof() {
    let out = run("");
    assert_eq!(out.tokens, vec![Token::new(TokenType::Eof, String::new(), None, 1)]);
    assert!(out.diagnostics.is_empty());
}

#[test]
fn terminator_is_last_and_unique() {
    for source in SAMPLES {
        let out = run(source);
        let n = out.tokens.len();
        assert!(n >= 1);
        assert_eq!(out.tokens[n - 1].token_type, TokenType::Eof);
        assert_eq!(out.tokens[n - 1].lexeme, "");
        assert_eq!(out.tokens[n - 1].literal, None);
        assert_eq!(out.tokens[n - 1].line, 1 + source.matches('\n').count());
        assert!(out.tokens[..n - 1].iter().all(|t| t.token_type != TokenType::Eof));
    }
}

#[test]
fn lexemes_are_source_text_in_order() {
    for source in SAMPLES {
        let out = run(source);
        let mut from = 0;
        for token in &out.tokens {
            if token.token_type == TokenType::Eof {
                continue;
            }
            assert!(!token.lexeme.is_empty());
            let at = source[from..].find(token.lexeme.as_str()).expect("lexeme not in source");
            let start = from + at;
            assert_eq!(token.line, 1 + source[..start].matches('\n').count());
            from = start + token.lexeme.len();
        }
    }
}

#[test]
fn lines_never_decrease() {
    for source in SAMPLES {
        let out = run(source);
        assert!(out.tokens[0].line >= 1);
        assert!(out.tokens.windows(2).all(|w| w[0].line <= w[1].line));
    }
}

#[test]
fn scanning_twice_gives_the_same() {
    for source in SAMPLES {
        let first = run(source);
        let second = run(source);
        assert_eq!(first, second);
        assert_eq!(first.tokens, Scanner::new(source).scan_tokens().tokens);
    }
}

#[test]
fn number_literal_is_its_lexeme() {
    for source in SAMPLES {
        let out = run(source);
        for token in &out.tokens {
            if token.token_type == TokenType::Number {
                assert_eq!(token.literal, Some(Literal::NumberValue(token.lexeme.clone())));
                assert_eq!(
                    number_value(token).to_bits(),
                    token.lexeme.parse::<f64>().unwrap().to_bits()
                );
            }
        }
    }
}

#[test]
fn identifiers_are_never_keywords() {
    for source in SAMPLES {
        let out = run(source);
        for token in &out.tokens {
            if token.token_type == TokenType::Identifier {
                assert!(KEYWORDS.iter().all(|(word, _)| *word != token.lexeme));
                assert_eq!(lookup_keyword(&token.lexeme), None);
            }
        }
    }
}

#[test]
fn every_keyword_has_its_kind() {
    for (word, kind) in KEYWORDS {
        assert_eq!(lookup_keyword(word), Some(kind));
        let out = run(word);
        assert_eq!(kinds(&out), vec![kind, TokenType::Eof]);
        assert_eq!(out.tokens[0].lexeme, word);
    }
    assert_eq!(lookup_keyword("orchid"), None);
    assert_eq!(lookup_keyword("An"), None);
    assert_eq!(lookup_keyword("AND"), None);
    assert_eq!(lookup_keyword(""), None);
    assert_eq!(lookup_keyword("whil"), None);
    assert_eq!(lookup_keyword("whilee"), None);
}

#[test]
fn keyword_literals() {
    let out = run("true false nil and");
    assert_eq!(out.tokens[0].literal, Some(Literal::BoolValue(true)));
    assert_eq!(out.tokens[1].literal, Some(Literal::BoolValue(false)));
    assert_eq!(out.tokens[2].literal, Some(Literal::NilValue));
    assert_eq!(out.tokens[3].literal, None);
}

#[test]
fn keyword_prefix_continued_is_identifier() {
    let out = run("classy _if nil0 For");
    assert_eq!(
        kinds(&out),
        vec![
            TokenType::Identifier,
            TokenType::Identifier,
            TokenType::Identifier,
            TokenType::Identifier,
            TokenType::Eof,
        ]
    );
    assert_eq!(out.tokens[1].lexeme, "_if");
    assert_eq!(out.tokens[2].lexeme, "nil0");
}

#[test]
fn trailing_dot_is_not_part_of_number() {
    let out = run("123.");
    assert_eq!(kinds(&out), vec![TokenType::Number, TokenType::Dot, TokenType::Eof]);
    assert_eq!(out.tokens[0].lexeme, "123");
    assert_eq!(number_value(&out.tokens[0]), 123.0);
}

#[test]
fn leading_dot_and_second_fraction() {
    let out = run(".5 1.2.3 -7 4.x");
    assert_eq!(
        kinds(&out),
        vec![
            TokenType::Dot,
            TokenType::Number,
            TokenType::Number,
            TokenType::Dot,
            TokenType::Number,
            TokenType::Minus,
            TokenType::Number,
            TokenType::Number,
            TokenType::Dot,
            TokenType::Identifier,
            TokenType::Eof,
        ]
    );
    assert_eq!(out.tokens[1].lexeme, "5");
    assert_eq!(out.tokens[2].lexeme, "1.2");
    assert_eq!(number_value(&out.tokens[2]), 1.2);
    assert_eq!(out.tokens[4].lexeme, "3");
    assert_eq!(out.tokens[6].lexeme, "7");
}

#[test]
fn longest_operator_wins() {
    let out = run("=== !== <== > =");
    assert_eq!(
        kinds(&out),
        vec![
            TokenType::EqualEqual,
            TokenType::Equal,
            TokenType::BangEqual,
            TokenType::Equal,
            TokenType::LessEqual,
            TokenType::Equal,
            TokenType::Greater,
            TokenType::Equal,
            TokenType::Eof,
        ]
    );
}

#[test]
fn line_comment_runs_to_end_of_line() {
    let out = run("a // b c\nd // e");
    assert_eq!(kinds(&out), vec![TokenType::Identifier, TokenType::Identifier, TokenType::Eof]);
    assert_eq!(out.tokens[1].lexeme, "d");
    assert_eq!(out.tokens[1].line, 2);
    assert_eq!(out.tokens[2].line, 2);
}

#[test]
fn block_comments_do_not_nest() {
    let out = run("/* a /* b */ c */");
    assert_eq!(
        kinds(&out),
        vec![TokenType::Identifier, TokenType::Star, TokenType::Slash, TokenType::Eof]
    );
    assert_eq!(out.tokens[0].lexeme, "c");
    assert!(out.diagnostics.is_empty());
}

#[test]
fn unterminated_block_comment() {
    let out = run("1 /* a\nb\n");
    assert_eq!(kinds(&out), vec![TokenType::Number, TokenType::Eof]);
    assert_eq!(
        out.diagnostics,
        vec![Diagnostic { line: 3, message: "Unterminated block comment.".to_string() }]
    );
    assert_eq!(out.tokens[1].line, 3);
}

#[test]
fn slash_star_slash_is_not_closed() {
    let out = run("/*/");
    assert_eq!(kinds(&out), vec![TokenType::Eof]);
    assert_eq!(out.diagnostics.len(), 1);
    assert_eq!(out.diagnostics[0].message, "Unterminated block comment.");
    let closed = run("/**/x");
    assert_eq!(kinds(&closed), vec![TokenType::Identifier, TokenType::Eof]);
    assert!(closed.diagnostics.is_empty());
}

#[test]
fn unterminated_string_reports_line_at_end() {
    let out = run("x\n\"a\nb");
    assert_eq!(kinds(&out), vec![TokenType::Identifier, TokenType::Eof]);
    assert_eq!(
        out.diagnostics,
        vec![Diagnostic { line: 3, message: "Unterminated string.".to_string() }]
    );
    assert_eq!(out.tokens[1].line, 3);
}

#[test]
fn escapes_are_not_interpreted() {
    let out = run("\"a\\nb\"");
    assert_eq!(kinds(&out), vec![TokenType::String, TokenType::Eof]);
    assert_eq!(out.tokens[0].literal, Some(Literal::StringValue("a\\nb".to_string())));
    assert_eq!(out.tokens[0].lexeme, "\"a\\nb\"");
    let empty = run("\"\"");
    assert_eq!(empty.tokens[0].literal, Some(Literal::StringValue(String::new())));
    assert_eq!(empty.tokens[0].lexeme, "\"\"");
}

#[test]
fn non_ascii_only_inside_strings() {
    let out = run("\"caf\u{e9}\" \u{e9} nil");
    assert_eq!(kinds(&out), vec![TokenType::String, TokenType::Nil, TokenType::Eof]);
    assert_eq!(out.tokens[0].lexeme, "\"caf\u{e9}\"");
    assert_eq!(out.tokens[0].literal, Some(Literal::StringValue("caf\u{e9}".to_string())));
    assert_eq!(out.tokens[1].lexeme, "nil");
    assert_eq!(
        out.diagnostics,
        vec![Diagnostic { line: 1, message: "Unexpected character.".to_string() }]
    );
}

#[test]
fn white_space_is_skipped_and_newlines_counted() {
    let out = run(" \t\r\n\n  x\r\n");
    assert_eq!(kinds(&out), vec![TokenType::Identifier, TokenType::Eof]);
    assert_eq!(out.tokens[0].line, 3);
    assert_eq!(out.tokens[1].line, 4);
}

#[test]
fn diagnostics_keep_source_order() {
    let out = run("@\n#\n\"open");
    assert_eq!(
        out.diagnostics,
        vec![
            Diagnostic { line: 1, message: "Unexpected character.".to_string() },
            Diagnostic { line: 2, message: "Unexpected character.".to_string() },
            Diagnostic { line: 3, message: "Unterminated string.".to_string() },
        ]
    );
}

#[test]
fn advance_consumes_one_character() {
    let mut scanner = Scanner::new("a\u{e9}");
    assert_eq!(scanner.advance(), Ok('a'));
    assert_eq!(scanner.advance(), Ok('\u{e9}'));
    assert_eq!(scanner.advance(), Err(ScanError::UnexpectedEof));
    assert_eq!(scanner.advance(), Err(ScanError::UnexpectedEof));
    assert_eq!(ScanError::UnexpectedEof.message(), "Unexpected EOF while reading");
}

#[test]
fn add_token_takes_the_text_since_the_start() {
    let mut scanner = Scanner::new("ab cd");
    assert!(scanner.advance().is_ok());
    assert!(scanner.advance().is_ok());
    scanner.add_token(TokenType::Identifier, None);
    let out = scanner.scan_tokens();
    assert_eq!(out.tokens[0], Token::new(TokenType::Identifier, "ab".to_string(), None, 1));
    assert_eq!(out.tokens[1], Token::new(TokenType::Identifier, "cd".to_string(), None, 1));
    assert_eq!(out.tokens.len(), 3);
}

#[test]
fn scan_token_recognises_one_lexeme() {
    let mut scanner = Scanner::new("<= x");
    assert_eq!(scanner.scan_token(), Ok(()));
    assert_eq!(scanner.scan_token(), Ok(()));
    assert_eq!(scanner.scan_token(), Ok(()));
    assert_eq!(scanner.scan_token(), Err(ScanError::UnexpectedEof));
    let out = scanner.scan_tokens();
    assert_eq!(kinds(&out), vec![TokenType::LessEqual, TokenType::Identifier, TokenType::Eof]);
}

#[test]
fn token_to_string() {
    let out = run("\"hi\" 1.5 true nil x (");
    let texts: Vec<String> = out.tokens.iter().map(|t| t.to_string()).collect();
    assert_eq!(
        texts,
        vec![
            "String, \"hi\", Some(StringValue(\"hi\"))",
            "Number, 1.5, Some(NumberValue(1.5))",
            "True, true, Some(BoolValue(true))",
            "Nil, nil, Some(NilValue)",
            "Identifier, x, None",
            "LeftParen, (, None",
            "Eof, , None",
        ]
    );
    let made = Token::new(TokenType::False, "false".to_string(), Some(Literal::BoolValue(false)), 7);
    assert_eq!(made.to_string(), "False, false, Some(BoolValue(false))");
    assert_eq!(made.line, 7);
}

#[test]
fn kind_names() {
    assert_eq!(TokenType::LeftParen.name(), "LeftParen");
    assert_eq!(TokenType::GreaterEqual.name(), "GreaterEqual");
    assert_eq!(TokenType::While.name(), "While");
    assert_eq!(TokenType::Eof.name(), "Eof");
    assert_eq!(format!("{:?}", TokenType::BangEqual), TokenType::BangEqual.name());
}

#[test]
fn cursor_peeks_and_matches() {
    let mut scanner = Scanner::new("a=b");
    assert!(!scanner.is_at_end());
    assert_eq!(scanner.peek(), 'a');
    assert_eq!(scanner.peek_next(), '=');
    assert!(!scanner.match_char('='));
    assert_eq!(scanner.peek(), 'a');
    assert!(scanner.match_char('a'));
    assert!(scanner.match_char('='));
    assert_eq!(scanner.peek(), 'b');
    assert_eq!(scanner.peek_next(), '\0');
    assert_eq!(scanner.advance(), Ok('b'));
    assert!(scanner.is_at_end());
    assert_eq!(scanner.peek(), '\0');
    assert_eq!(scanner.peek_next(), '\0');
    assert!(!scanner.match_char('b'));
    assert!(Scanner::new("").is_at_end());
}
