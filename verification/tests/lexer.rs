use cx::frontend::lexer::{fixed_token_of, tok_collector, unescape_string, word_token, Tok, Token};

fn kinds(toks: &[Tok]) -> Vec<Token> {
    toks.iter().map(|t| t.kind.clone()).collect()
}

fn spans(toks: &[Tok]) -> Vec<(usize, usize)> {
    toks.iter().map(|t| (t.span.start, t.span.end)).collect()
}

fn lex_ok(src: &str) -> Vec<Tok> {
    match tok_collector(src) {
        Ok(toks) => toks,
        Err(e) => panic!("unexpected lex error at {}: {}", e.pos, e.msg),
    }
}

#[test]
fn lexes_a_let_statement() {
    let toks = lex_ok("let x: t32 = 42;");
    assert_eq!(
        kinds(&toks),
        vec![
            Token::KeywordLet,
            Token::Identifier("x".to_string()),
            Token::PunctColon,
            Token::TypeT32,
            Token::OpAssign,
            Token::LiteralInt(42),
            Token::PunctSemicolon,
        ]
    );
    assert_eq!(spans(&toks), vec![(0, 3), (4, 5), (5, 6), (7, 10), (11, 12), (13, 15), (15, 16)]);
}

#[test]
fn keywords_win_only_on_whole_words() {
    let toks = lex_ok("letter let fnc fncs t128 t1288 true_ false");
    assert_eq!(
        kinds(&toks),
        vec![
            Token::Identifier("letter".to_string()),
            Token::KeywordLet,
            Token::KeywordFnc,
            Token::Identifier("fncs".to_string()),
            Token::TypeT128,
            Token::Identifier("t1288".to_string()),
            Token::Identifier("true_".to_string()),
            Token::KeywordFalse,
        ]
    );
}

#[test]
fn all_type_names_and_keywords() {
    let toks = lex_ok("print return true t8 t16 t64 bool str char");
    assert_eq!(
        kinds(&toks),
        vec![
            Token::KeywordPrint,
            Token::KeywordReturn,
            Token::KeywordTrue,
            Token::TypeT8,
            Token::TypeT16,
            Token::TypeT64,
            Token::TypeBool,
            Token::TypeStr,
            Token::TypeChar,
        ]
    );
}

#[test]
fn print_bang_is_one_token() {
    let toks = lex_ok("print!(x); print (y)");
    assert_eq!(
        kinds(&toks),
        vec![
            Token::KeywordPrintInline,
            Token::PunctParenOpen,
            Token::Identifier("x".to_string()),
            Token::PunctParenClose,
            Token::PunctSemicolon,
            Token::KeywordPrint,
            Token::PunctParenOpen,
            Token::Identifier("y".to_string()),
            Token::PunctParenClose,
        ]
    );
    assert_eq!(toks[0].span, 0..6);
}

#[test]
fn operators_and_punctuation() {
    let toks = lex_ok("+-*/%== > < = -> : ; , . ( ) { }");
    assert_eq!(
        kinds(&toks),
        vec![
            Token::OpAdd,
            Token::OpSub,
            Token::OpMul,
            Token::OpDiv,
            Token::OpMod,
            Token::OpEqualEqual,
            Token::OpGreaterThan,
            Token::OpLessThan,
            Token::OpAssign,
            Token::PunctArrow,
            Token::PunctColon,
            Token::PunctSemicolon,
            Token::PunctComma,
            Token::PunctDot,
            Token::PunctParenOpen,
            Token::PunctParenClose,
            Token::PunctBraceOpen,
            Token::PunctBraceClose,
        ]
    );
}

#[test]
fn numbers_ints_and_floats() {
    let toks = lex_ok("0 007 3.25 1.5.3 12abc 4.");
    assert_eq!(
        kinds(&toks),
        vec![
            Token::LiteralInt(0),
            Token::LiteralInt(7),
            Token::LiteralFloat("3.25".to_string()),
            Token::LiteralFloat("1.5".to_string()),
            Token::PunctDot,
            Token::LiteralInt(3),
            Token::LiteralInt(12),
            Token::Identifier("abc".to_string()),
            Token::LiteralInt(4),
            Token::PunctDot,
        ]
    );
}

#[test]
fn largest_u128_is_accepted() {
    let toks = lex_ok("340282366920938463463374607431768211455");
    assert_eq!(kinds(&toks), vec![Token::LiteralInt(u128::MAX)]);
}

#[test]
fn integer_overflow_is_an_error_over_the_digits() {
    let src = "x = 340282366920938463463374607431768211456;";
    match tok_collector(src) {
        Ok(_) => panic!("an integer above u128::MAX must not lex"),
        Err(e) => {
            assert_eq!(e.pos, 4);
            assert_eq!(
                e.msg,
                "unrecognized token \"340282366920938463463374607431768211456\" — this character is not valid in Cx"
            );
        }
    }
}

#[test]
fn strings_with_escapes() {
    let toks = lex_ok(r#"print("a\tb\n\"q\" \\ \x");"#);
    assert_eq!(toks[2].kind, Token::LiteralString("a\tb\n\"q\" \\ \\x".to_string()));
    assert_eq!(toks[2].span, 6..25);
}

#[test]
fn unterminated_string_is_an_error() {
    match tok_collector("let s = \"abc") {
        Ok(_) => panic!("an unterminated string must not lex"),
        Err(e) => {
            assert_eq!(e.pos, 8);
            assert_eq!(e.msg, "unrecognized token \"\\\"abc\" — this character is not valid in Cx");
        }
    }
}

#[test]
fn char_literals() {
    let toks = lex_ok(r"'a' '\n' '\'' '\\' '\q' 'é'");
    assert_eq!(
        kinds(&toks),
        vec![
            Token::LiteralChar('a'),
            Token::LiteralChar('\n'),
            Token::LiteralChar('\''),
            Token::LiteralChar('\\'),
            Token::LiteralChar('q'),
            Token::LiteralChar('é'),
        ]
    );
    assert_eq!(toks[5].span, 24..28);
}

#[test]
fn empty_char_literal_is_an_error() {
    match tok_collector("x = '';") {
        Ok(_) => panic!("'' must not lex"),
        Err(e) => {
            assert_eq!(e.pos, 4);
            assert_eq!(e.msg, "unrecognized token \"'\" — this character is not valid in Cx");
        }
    }
}

#[test]
fn comments_and_white_space_are_skipped() {
    let toks = lex_ok("// a comment\n\tlet\r\n// another\u{c}\nx // trailing");
    assert_eq!(kinds(&toks), vec![Token::KeywordLet, Token::Identifier("x".to_string())]);
    assert_eq!(spans(&toks), vec![(14, 17), (31, 32)]);
}

#[test]
fn empty_and_blank_inputs_give_no_tokens() {
    assert!(lex_ok("").is_empty());
    assert!(lex_ok("   \n\t // only a comment").is_empty());
}

#[test]
fn unknown_character_reports_its_byte_position() {
    match tok_collector("let é = 1 $ 2;") {
        Ok(_) => panic!("'$' must not lex"),
        Err(e) => {
            assert_eq!(e.pos, 11);
            assert_eq!(e.msg, "unrecognized token \"$\" — this character is not valid in Cx");
        }
    }
}

#[test]
fn unicode_identifiers_and_byte_spans() {
    let toks = lex_ok("größe _x1 日本");
    assert_eq!(
        kinds(&toks),
        vec![
            Token::Identifier("größe".to_string()),
            Token::Identifier("_x1".to_string()),
            Token::Identifier("日本".to_string()),
        ]
    );
    assert_eq!(spans(&toks), vec![(0, 7), (8, 11), (12, 18)]);
}

#[test]
fn unescape_string_resolves_known_escapes() {
    assert_eq!(unescape_string(r"a\nb"), "a\nb");
    assert_eq!(unescape_string(r"\r\t\0"), "\r\t\0");
    assert_eq!(unescape_string(r#"\\\""#), "\\\"");
    assert_eq!(unescape_string(r"\q"), "\\q");
    assert_eq!(unescape_string("end\\"), "end\\");
    assert_eq!(unescape_string(""), "");
    assert_eq!(unescape_string("plain text é"), "plain text é");
}

#[test]
fn fixed_token_table() {
    assert_eq!(fixed_token_of("let"), Some(Token::KeywordLet));
    assert_eq!(fixed_token_of("print!"), Some(Token::KeywordPrintInline));
    assert_eq!(fixed_token_of("t128"), Some(Token::TypeT128));
    assert_eq!(fixed_token_of("=="), Some(Token::OpEqualEqual));
    assert_eq!(fixed_token_of("="), Some(Token::OpAssign));
    assert_eq!(fixed_token_of("->"), Some(Token::PunctArrow));
    assert_eq!(fixed_token_of("-"), Some(Token::OpSub));
    assert_eq!(fixed_token_of("%"), Some(Token::OpMod));
    assert_eq!(fixed_token_of("("), Some(Token::PunctParenOpen));
    assert_eq!(fixed_token_of("{"), None);
    assert_eq!(fixed_token_of("}"), None);
    assert_eq!(fixed_token_of("=>"), None);
    assert_eq!(fixed_token_of("lets"), None);
    assert_eq!(fixed_token_of(""), None);
    assert_eq!(fixed_token_of("1.5"), None);
}

#[test]
fn token_spans_are_ordered_and_within_the_text() {
    let src = "fnc f(a: t32) -> t32 { return a * 2; } // done\nprint(\"é\");";
    let toks = lex_ok(src);
    for t in &toks {
        assert!(t.span.start < t.span.end);
        assert!(t.span.end <= src.len());
    }
    for w in toks.windows(2) {
        assert!(w[0].span.end <= w[1].span.start);
    }
}

#[test]
fn single_words_read_as_tokens() {
    assert!(matches!(word_token("let", false), Token::KeywordLet));
    assert!(matches!(word_token("==", false), Token::OpEqualEqual));
    assert!(matches!(word_token("2.5", true), Token::LiteralFloat(s) if s == "2.5"));
    assert!(matches!(word_token("42", false), Token::LiteralInt(42)));
    assert!(matches!(word_token("340282366920938463463374607431768211456", false), Token::Identifier(_)));
    assert!(matches!(word_token("x1", false), Token::Identifier(s) if s == "x1"));
    assert!(matches!(word_token("", false), Token::Identifier(s) if s.is_empty()));
}
