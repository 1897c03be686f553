use rusty::lex::LexError;
use rusty::Lexer;
use rusty::Token;
use rusty::TokenKind;

/// Pull the stream to exhaustion, keeping each token as its kind and
/// origin text and each error as a tag string.
fn collect(input: &str) -> Vec<Result<(TokenKind, String), String>> {
    let mut lexer = Lexer::new(input);
    let mut items = Vec::new();
    while let Some(item) = lexer.next() {
        match item {
            Ok(t) => items.push(Ok((t.kind, t.origin.to_string()))),
            Err(LexError::SingleToken(e)) => {
                items.push(Err(format!("unexpected:{}:{}", e.token, e.line())))
            }
            Err(LexError::StringTermination(e)) => {
                items.push(Err(format!("unterminated:{}", e.line())))
            }
            Err(LexError::NumberLiteral(e)) => items.push(Err(format!("number:{}", e.line()))),
        }
    }
    items
}

/// The displayed text of a number token's parsed value: an exact integer
/// gains a forced `.0`, any other value prints in its natural form.
fn number_text(origin: &str) -> String {
    let n: f64 = origin.parse().expect("a number token always parses");
    if n == n.trunc() {
        format!("{n}.0")
    } else {
        format!("{n}")
    }
}

#[test]
fn empty_input_is_exhausted() {
    let mut lexer = Lexer::new("");
    assert!(lexer.next().is_none());
    assert!(lexer.next().is_none());
}

#[test]
fn left_paren_renders() {
    let items = collect("(");
    assert_eq!(items, vec![Ok((TokenKind::LeftParen, "(".to_string()))]);
    let mut lexer = Lexer::new("(");
    let t = lexer.next().unwrap().unwrap();
    assert_eq!(t.render(""), "LEFT_PAREN");
}

#[test]
fn string_literal_renders() {
    let src = "\"foo\"";
    let mut lexer = Lexer::new(src);
    let t = lexer.next().unwrap().unwrap();
    assert_eq!(t.kind, TokenKind::String);
    assert_eq!(t.origin, "\"foo\"");
    assert_eq!(t.render(""), "STRING \"foo\" foo");
    assert!(lexer.next().is_none());
}

#[test]
fn integer_number_renders() {
    let mut lexer = Lexer::new("123");
    let t = lexer.next().unwrap().unwrap();
    assert_eq!(t.kind, TokenKind::Number);
    assert_eq!(t.origin, "123");
    assert_eq!(t.render(&number_text(t.origin)), "NUMBER 123.0");
    assert!(lexer.next().is_none());
}

#[test]
fn fractional_number_renders() {
    let mut lexer = Lexer::new("1.2");
    let t = lexer.next().unwrap().unwrap();
    assert_eq!(t.kind, TokenKind::Number);
    assert_eq!(t.render(&number_text(t.origin)), "NUMBER 1.2");
}

#[test]
fn doubled_dot_number_truncates() {
    let items = collect("1.2.3");
    assert_eq!(
        items,
        vec![
            Ok((TokenKind::Number, "1.2".to_string())),
            Ok((TokenKind::Dot, ".".to_string())),
            Ok((TokenKind::Number, "3".to_string())),
        ]
    );
}

#[test]
fn doubled_dot_number_renders() {
    let mut lexer = Lexer::new("1.2.3");
    let renders: Vec<String> = [
        lexer.next().unwrap().unwrap(),
        lexer.next().unwrap().unwrap(),
        lexer.next().unwrap().unwrap(),
    ]
    .iter()
    .map(|t| match t.kind {
        TokenKind::Number => t.render(&number_text(t.origin)),
        _ => t.render(""),
    })
    .collect();
    assert_eq!(renders, vec!["NUMBER 1.2", "DOT", "NUMBER 3.0"]);
}

#[test]
fn trailing_dot_is_returned_to_stream() {
    let items = collect("1.");
    assert_eq!(
        items,
        vec![
            Ok((TokenKind::Number, "1".to_string())),
            Ok((TokenKind::Dot, ".".to_string())),
        ]
    );
}

#[test]
fn adjacent_dots_keep_first_segment() {
    let items = collect("1..2");
    assert_eq!(
        items,
        vec![
            Ok((TokenKind::Number, "1.".to_string())),
            Ok((TokenKind::Dot, ".".to_string())),
            Ok((TokenKind::Number, "2".to_string())),
        ]
    );
}

#[test]
fn bang_equal_fuses() {
    let items = collect("!=");
    assert_eq!(items, vec![Ok((TokenKind::BangEqual, "!=".to_string()))]);
    let mut lexer = Lexer::new("!=");
    let t = lexer.next().unwrap().unwrap();
    assert_eq!(t.render(""), "BANG_EQUAL");
}

#[test]
fn spaced_operator_still_fuses() {
    let items = collect("! =");
    assert_eq!(items, vec![Ok((TokenKind::BangEqual, "! =".to_string()))]);
}

#[test]
fn lone_operator_drops_trailing_space() {
    let items = collect("< 5");
    assert_eq!(
        items,
        vec![
            Ok((TokenKind::Less, "<".to_string())),
            Ok((TokenKind::Number, "5".to_string())),
        ]
    );
}

#[test]
fn unterminated_string_reports_line_and_stops() {
    let mut lexer = Lexer::new("\"unterminated");
    match lexer.next().unwrap() {
        Err(LexError::StringTermination(e)) => assert_eq!(e.line(), 1),
        other => panic!("expected an unterminated string, got {other:?}"),
    }
    assert!(lexer.next().is_none());
}

#[test]
fn unterminated_string_line_counts_newlines() {
    let mut lexer = Lexer::new("\n\n\"abc");
    match lexer.next().unwrap() {
        Err(LexError::StringTermination(e)) => assert_eq!(e.line(), 3),
        other => panic!("expected an unterminated string, got {other:?}"),
    }
    assert!(lexer.next().is_none());
}

#[test]
fn unexpected_character_resumes() {
    let mut lexer = Lexer::new("@+");
    match lexer.next().unwrap() {
        Err(LexError::SingleToken(e)) => {
            assert_eq!(e.token, '@');
            assert_eq!(e.line(), 1);
        }
        other => panic!("expected an unexpected-character error, got {other:?}"),
    }
    let t = lexer.next().unwrap().unwrap();
    assert_eq!(t.kind, TokenKind::Plus);
    assert!(lexer.next().is_none());
}

#[test]
fn unexpected_character_line_counts_newlines() {
    let mut lexer = Lexer::new("(\n@");
    let t = lexer.next().unwrap().unwrap();
    assert_eq!(t.kind, TokenKind::LeftParen);
    match lexer.next().unwrap() {
        Err(LexError::SingleToken(e)) => {
            assert_eq!(e.token, '@');
            assert_eq!(e.line(), 2);
        }
        other => panic!("expected an unexpected-character error, got {other:?}"),
    }
}

#[test]
fn keyword_prefix_stays_identifier() {
    let mut lexer = Lexer::new("forest");
    let t = lexer.next().unwrap().unwrap();
    assert_eq!(t.kind, TokenKind::Ident);
    assert_eq!(t.origin, "forest");
    assert_eq!(t.render(""), "IDENTFIER forest");
    assert!(lexer.next().is_none());
}

#[test]
fn every_reserved_word_lexes_to_its_kind() {
    let table = [
        ("and", TokenKind::And),
        ("class", TokenKind::Class),
        ("else", TokenKind::Else),
        ("false", TokenKind::False),
        ("for", TokenKind::For),
        ("fun", TokenKind::Fun),
        ("if", TokenKind::If),
        ("nil", TokenKind::Nil),
        ("or", TokenKind::Or),
        ("print", TokenKind::Print),
        ("return", TokenKind::Return),
        ("super", TokenKind::Super),
        ("this", TokenKind::This),
        ("true", TokenKind::True),
        ("var", TokenKind::Var),
        ("while", TokenKind::While),
    ];
    for (word, kind) in table {
        let items = collect(word);
        assert_eq!(items, vec![Ok((kind, word.to_string()))]);
    }
}

#[test]
fn comments_and_whitespace_are_skipped() {
    let items = collect("// a comment\n  ( // another\n)");
    assert_eq!(
        items,
        vec![
            Ok((TokenKind::LeftParen, "(".to_string())),
            Ok((TokenKind::RightParen, ")".to_string())),
        ]
    );
}

#[test]
fn comment_at_end_of_input_is_skipped() {
    assert_eq!(collect("//x"), vec![]);
    assert_eq!(collect("1//x"), vec![Ok((TokenKind::Number, "1".to_string()))]);
}

#[test]
fn slash_alone_is_a_token() {
    let items = collect("1/2");
    assert_eq!(
        items,
        vec![
            Ok((TokenKind::Number, "1".to_string())),
            Ok((TokenKind::Slash, "/".to_string())),
            Ok((TokenKind::Number, "2".to_string())),
        ]
    );
}

#[test]
fn lexing_twice_matches() {
    let src = "var x = 1.5; // init\nif (x >= 2) { print \"big\"; } @";
    assert_eq!(collect(src), collect(src));
}

#[test]
fn origins_reconstruct_gapless_input() {
    let src = "(){};1.2.3!=\"s\"ident";
    let mut rebuilt = String::new();
    for item in collect(src) {
        rebuilt.push_str(&item.expect("no errors in this input").1);
    }
    assert_eq!(rebuilt, src);
}

#[test]
fn punctuation_sequence() {
    let items = collect("({,.-+;*})");
    let kinds: Vec<TokenKind> = items.into_iter().map(|i| i.unwrap().0).collect();
    assert_eq!(
        kinds,
        vec![
            TokenKind::LeftParen,
            TokenKind::LeftBrace,
            TokenKind::Comma,
            TokenKind::Dot,
            TokenKind::Minus,
            TokenKind::Plus,
            TokenKind::Semicolon,
            TokenKind::Star,
            TokenKind::RightBrace,
            TokenKind::RightParen,
        ]
    );
}

#[test]
fn operator_pairs_and_singles() {
    // A lone operator fuses with the next `=` even across whitespace, so
    // each single-operator probe here is followed by something other
    // than `=`.
    let items = collect("== = <= < >= > != !");
    let kinds: Vec<TokenKind> = items.into_iter().map(|i| i.unwrap().0).collect();
    assert_eq!(
        kinds,
        vec![
            TokenKind::EqualEqual,
            TokenKind::Equal,
            TokenKind::LessEqual,
            TokenKind::Less,
            TokenKind::GreaterEqual,
            TokenKind::Greater,
            TokenKind::BangEqual,
            TokenKind::Bang,
        ]
    );
}

#[test]
fn unescape_strips_outer_quotes() {
    assert_eq!(Token::unescape("\"foo\""), "foo");
    assert_eq!(Token::unescape("abc"), "abc");
    assert_eq!(Token::unescape("\"\""), "");
    assert_eq!(Token::unescape("\"a\\nb\""), "a\\nb");
}

#[test]
fn string_with_escapes_is_not_interpreted() {
    let mut lexer = Lexer::new("\"a\\nb\"");
    let t = lexer.next().unwrap().unwrap();
    assert_eq!(t.kind, TokenKind::String);
    assert_eq!(t.render(""), "STRING \"a\\nb\" a\\nb");
}

#[test]
fn unicode_whitespace_is_skipped() {
    let items = collect("\u{a0}(\u{2003})");
    let kinds: Vec<TokenKind> = items.into_iter().map(|i| i.unwrap().0).collect();
    assert_eq!(kinds, vec![TokenKind::LeftParen, TokenKind::RightParen]);
}

#[test]
fn keywords_render_uppercase() {
    let mut lexer = Lexer::new("while");
    let t = lexer.next().unwrap().unwrap();
    assert_eq!(t.render(""), "WHILE");
}

#[test]
fn parser_wraps_a_fresh_lexer() {
    let p = rusty::parse::Parser::new("print 1;");
    assert_eq!(p.whole, "print 1;");
}
