use nexus::lexer::{lex_chars, tokenize, tokenize_checked, CharClass, TokenKind};

#[test]
fn test_basic_tokens() {
    let tokens = tokenize("let x = 42").unwrap();
    assert!(matches!(tokens[0].kind, TokenKind::Let));
    assert!(matches!(tokens[1].kind, TokenKind::Ident(ref s) if s == "x"));
    assert!(matches!(tokens[2].kind, TokenKind::Eq));
    assert!(matches!(tokens[3].kind, TokenKind::Int(42)));
    assert!(matches!(tokens[4].kind, TokenKind::Eof));
}

#[test]
fn test_bracket_string() {
    let tokens = tokenize("[=[hello]=]").unwrap();
    assert!(matches!(tokens[0].kind, TokenKind::StringLit(ref s) if s == "hello"));
}

#[test]
fn test_operators() {
    let tokens = tokenize("+ - * / +. -. *. /. ++ == != < <= > >= -> <- && ||").unwrap();
    let kinds: Vec<_> = tokens.iter().map(|t| &t.kind).collect();
    assert!(matches!(kinds[0], TokenKind::Plus));
    assert!(matches!(kinds[1], TokenKind::Minus));
    assert!(matches!(kinds[2], TokenKind::Star));
    assert!(matches!(kinds[3], TokenKind::Slash));
    assert!(matches!(kinds[4], TokenKind::PlusDot));
    assert!(matches!(kinds[5], TokenKind::MinusDot));
    assert!(matches!(kinds[6], TokenKind::StarDot));
    assert!(matches!(kinds[7], TokenKind::SlashDot));
    assert!(matches!(kinds[8], TokenKind::PlusPlus));
    assert!(matches!(kinds[9], TokenKind::EqEq));
    assert!(matches!(kinds[10], TokenKind::Ne));
    assert!(matches!(kinds[11], TokenKind::Lt));
    assert!(matches!(kinds[12], TokenKind::Le));
    assert!(matches!(kinds[13], TokenKind::Gt));
    assert!(matches!(kinds[14], TokenKind::Ge));
    assert!(matches!(kinds[15], TokenKind::Arrow));
    assert!(matches!(kinds[16], TokenKind::Assign));
    assert!(matches!(kinds[17], TokenKind::AndAnd));
    assert!(matches!(kinds[18], TokenKind::OrOr));
}

#[test]
fn test_comments() {
    let tokens = tokenize("let x = 1 // comment\nlet y = 2").unwrap();
    assert!(matches!(tokens[0].kind, TokenKind::Let));
    assert!(matches!(tokens[3].kind, TokenKind::Int(1)));
    assert!(matches!(tokens[4].kind, TokenKind::Let));
}

#[test]
fn test_unit_literal() {
    let tokens = tokenize("()").unwrap();
    assert!(matches!(tokens[0].kind, TokenKind::LParen));
    assert!(matches!(tokens[1].kind, TokenKind::RParen));
}

#[test]
fn test_float_operators() {
    let tokens = tokenize("==. !=. <. <=. >. >=.").unwrap();
    assert!(matches!(tokens[0].kind, TokenKind::EqDot));
    assert!(matches!(tokens[1].kind, TokenKind::NeDot));
    assert!(matches!(tokens[2].kind, TokenKind::LtDot));
    assert!(matches!(tokens[3].kind, TokenKind::LeDot));
    assert!(matches!(tokens[4].kind, TokenKind::GtDot));
    assert!(matches!(tokens[5].kind, TokenKind::GeDot));
}

#[test]
fn test_negative_number() {
    let tokens = tokenize("-42").unwrap();
    assert!(matches!(tokens[0].kind, TokenKind::Int(-42)));
}

#[test]
fn test_double_quoted_string() {
    let tokens = tokenize(r#""hello""#).unwrap();
    assert!(matches!(tokens[0].kind, TokenKind::StringLit(ref s) if s == "hello"));
}

#[test]
fn test_double_quoted_string_escapes() {
    let tokens = tokenize(r#""a\"b\\c\nd\re\tf""#).unwrap();
    assert!(matches!(tokens[0].kind, TokenKind::StringLit(ref s) if s == "a\"b\\c\nd\re\tf"));
}

#[test]
fn test_double_quoted_string_unterminated() {
    let err = tokenize(r#""hello"#).unwrap_err();
    assert!(err[0].message.contains("unterminated string literal"));
}

#[test]
fn test_double_quoted_string_newline_rejected() {
    let err = tokenize("\"hello\nworld\"").unwrap_err();
    assert!(err[0].message.contains("unclosed string literal"));
}

#[test]
fn block_comments_nest() {
    let tokens = tokenize("a /* x /* y */ z */ b").unwrap();
    assert_eq!(tokens.len(), 3);
    assert_eq!(tokens[1].kind, TokenKind::Ident("b".to_string()));
    assert_eq!((tokens[1].span.start, tokens[1].span.end), (20, 21));
}

#[test]
fn unterminated_block_comment_is_reported() {
    let err = tokenize("a /* x").unwrap_err();
    assert_eq!(err[0].message, "unterminated block comment");
    assert_eq!(err[0].to_text(), "Lex error at 6..6: unterminated block comment");
}

#[test]
fn stray_character_is_reported_with_its_place() {
    let err = tokenize("a @").unwrap_err();
    assert_eq!(err.len(), 1);
    assert_eq!(err[0].message, "unexpected character '@'");
    assert_eq!((err[0].span.start, err[0].span.end), (2, 3));
}

#[test]
fn bracket_strings_escape_below_two_equals_signs() {
    let tokens = tokenize(r"[=[a\nb]=] [==[a\nb]==]").unwrap();
    assert_eq!(tokens[0].kind, TokenKind::StringLit("a\nb".to_string()));
    assert_eq!(tokens[1].kind, TokenKind::StringLit("a\\nb".to_string()));
}

#[test]
fn unterminated_bracket_string_is_reported() {
    let err = tokenize("[=[abc").unwrap_err();
    assert_eq!(err[0].message, "unterminated bracket string");
}

#[test]
fn floats_keep_their_digits() {
    let tokens = tokenize("3.25 -0.5").unwrap();
    assert_eq!(tokens[0].kind, TokenKind::Float("3.25".to_string()));
    assert_eq!(tokens[1].kind, TokenKind::Float("-0.5".to_string()));
}

#[test]
fn integers_that_do_not_fit_have_no_tokens() {
    assert!(tokenize_checked("let x = 99999999999999999999").is_none());
    assert!(tokenize_checked("let x = 9223372036854775807").is_some());
}

#[test]
fn letters_beyond_ascii_make_names() {
    let tokens = tokenize("größe\u{2003}= 1").unwrap();
    assert_eq!(tokens[0].kind, TokenKind::Ident("größe".to_string()));
    assert_eq!((tokens[0].span.start, tokens[0].span.end), (0, 7));
    assert_eq!(tokens[1].kind, TokenKind::Eq);
    assert_eq!((tokens[1].span.start, tokens[1].span.end), (10, 11));
}

#[test]
fn digits_of_other_scripts_go_on_with_a_name() {
    let tokens = tokenize("x\u{0663}").unwrap();
    assert_eq!(tokens[0].kind, TokenKind::Ident("x\u{0663}".to_string()));
}

#[test]
fn spans_count_bytes() {
    let src = "\"ä\u{1F600}\" x";
    let tokens = tokenize(src).unwrap();
    assert_eq!((tokens[0].span.start, tokens[0].span.end), (0, 8));
    assert_eq!(&src[tokens[1].span.start..tokens[1].span.end], "x");
    assert_eq!(tokens[2].span.start, src.len());
    let err = tokenize("ä @").unwrap_err();
    assert_eq!((err[0].span.start, err[0].span.end), (3, 4));
}

#[test]
fn spaces_alone_give_the_end_of_the_source() {
    let tokens = tokenize(" \t\n ").unwrap();
    assert_eq!(tokens.len(), 1);
    assert_eq!(tokens[0].kind, TokenKind::Eof);
    assert_eq!((tokens[0].span.start, tokens[0].span.end), (4, 4));
}

#[test]
fn tokens_come_one_behind_the_other() {
    let tokens = tokenize("let f = fn (a: i64) -> i64 do return a end").unwrap();
    for i in 1..tokens.len() {
        assert!(tokens[i - 1].span.start < tokens[i - 1].span.end);
        assert!(tokens[i - 1].span.end <= tokens[i].span.start);
    }
    assert_eq!(tokens[tokens.len() - 1].kind, TokenKind::Eof);
}

#[test]
fn classes_decide_what_a_character_is() {
    let cs = vec!['a', 'b'];
    let letter = CharClass { space: false, alphabetic: true, alphanumeric: true };
    let space = CharClass { space: true, alphabetic: false, alphanumeric: false };
    let toks = lex_chars(&cs, &vec![letter, space]).unwrap().unwrap();
    assert_eq!(toks.len(), 2);
    assert_eq!(toks[0].kind, TokenKind::Ident("a".to_string()));
}

#[test]
fn white_space_is_a_fixed_set() {
    let spaces = |n: u32| {
        matches!(n, 0x09..=0x0D | 0x20 | 0x85 | 0xA0 | 0x1680 | 0x2000..=0x200A | 0x2028 | 0x2029
            | 0x202F | 0x205F | 0x3000)
    };
    for n in 0u32..0x4000 {
        if let Some(c) = char::from_u32(n) {
            let alone = matches!(tokenize(&c.to_string()), Ok(toks) if toks.len() == 1);
            assert_eq!(alone, spaces(n), "{:x}", n);
        }
    }
}

#[test]
fn names_in_ascii() {
    for n in 0u8..128 {
        let c = n as char;
        let first = matches!(tokenize(&c.to_string()), Ok(toks)
            if toks[0].kind == TokenKind::Ident(c.to_string()));
        assert_eq!(first, c.is_ascii_alphabetic() || c == '_', "{}", n);
        let word = format!("x{}", c);
        let next = matches!(tokenize(&word), Ok(toks)
            if toks[0].kind == TokenKind::Ident(word.clone()));
        assert_eq!(next, c.is_ascii_alphanumeric() || c == '_', "{}", n);
    }
}
