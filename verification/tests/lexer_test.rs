use pure_lisp::lexer::{anchored, classify, classify_segment, spells, Lexeme, Lexer};
use pure_lisp::token::Token;

fn tokens_of(text: &str) -> Vec<Option<Token>> {
    let mut lexer = Lexer::new(&text.to_string());
    let mut out = Vec::new();
    for _ in 0..64 {
        out.push(lexer.next_token());
    }
    while out.len() > 1 && out[out.len() - 1].is_none() && out[out.len() - 2].is_none() {
        out.pop();
    }
    out
}

fn id(name: &str) -> Option<Token> {
    Some(Token::Id(name.to_string()))
}

#[test]
fn lexer_yields_punctuation_and_keywords() {
    assert_eq!(
        tokens_of("'(),"),
        vec![
            Some(Token::Quote),
            Some(Token::LParen),
            Some(Token::RParen),
            Some(Token::Comma),
            None
        ]
    );
    assert_eq!(
        tokens_of("cond atom eq car cdr cons lambda apply label"),
        vec![
            Some(Token::Cond),
            Some(Token::Atom),
            Some(Token::Eq),
            Some(Token::Car),
            Some(Token::Cdr),
            Some(Token::Cons),
            Some(Token::Lambda),
            Some(Token::Apply),
            Some(Token::Label),
            None
        ]
    );
}

#[test]
fn lexer_yields_identifiers() {
    assert_eq!(tokens_of("x"), vec![id("x"), None]);
    assert_eq!(tokens_of("x1 Y2z"), vec![id("x1"), id("Y2z"), None]);
    assert_eq!(tokens_of("TARGET"), vec![id("TARGET"), None]);
}

#[test]
fn lexer_keywords_are_case_sensitive() {
    assert_eq!(tokens_of("Cond"), vec![id("Cond"), None]);
    assert_eq!(tokens_of("LAMBDA"), vec![id("LAMBDA"), None]);
}

#[test]
fn lexer_takes_a_keyword_as_a_whole_word_only() {
    assert_eq!(tokens_of("condition"), vec![id("condition"), None]);
    assert_eq!(tokens_of("labelx"), vec![id("labelx"), None]);
    assert_eq!(tokens_of("xlabel"), vec![id("xlabel"), None]);
    assert_eq!(tokens_of("eqeq"), vec![id("eqeq"), None]);
    assert_eq!(tokens_of("car1"), vec![id("car1"), None]);
    assert_eq!(tokens_of("cdrs"), vec![id("cdrs"), None]);
    assert_eq!(tokens_of("atomic"), vec![id("atomic"), None]);
    assert_eq!(tokens_of("consx"), vec![id("consx"), None]);
    assert_eq!(tokens_of("applyf"), vec![id("applyf"), None]);
    assert_eq!(tokens_of("lambdas"), vec![id("lambdas"), None]);
}

#[test]
fn lexer_takes_a_keyword_that_stands_alone_as_the_keyword() {
    assert_eq!(tokens_of("cond"), vec![Some(Token::Cond), None]);
    assert_eq!(
        tokens_of("(cond)"),
        vec![Some(Token::LParen), Some(Token::Cond), Some(Token::RParen), None]
    );
    assert_eq!(
        tokens_of("eq eq"),
        vec![Some(Token::Eq), Some(Token::Eq), None]
    );
    assert_eq!(
        tokens_of("'label,car"),
        vec![
            Some(Token::Quote),
            Some(Token::Label),
            Some(Token::Comma),
            Some(Token::Car),
            None
        ]
    );
}

#[test]
fn lexer_first_token_of_a_word_that_starts_with_a_keyword() {
    let mut lexer = Lexer::new(&"condition".to_string());
    assert_eq!(lexer.next_token(), Some(Token::Id("condition".to_string())));
    assert_eq!(lexer.next_token(), None);
}

#[test]
fn lexer_discards_white_space() {
    assert_eq!(tokens_of("  x \t\n y  "), vec![id("x"), id("y"), None]);
    assert_eq!(tokens_of(" \n\t "), vec![None]);
    assert_eq!(tokens_of(""), vec![None]);
}

#[test]
fn lexer_reports_unknown_text_as_no_token() {
    assert_eq!(tokens_of("123"), vec![None]);
    assert_eq!(tokens_of("$"), vec![None]);
    assert_eq!(tokens_of("1a"), vec![None]);
    assert_eq!(tokens_of("1 2"), vec![None]);
    assert_eq!(tokens_of("x ?"), vec![id("x"), None]);
}

#[test]
fn lexer_goes_on_after_unknown_text_on_the_next_line() {
    assert_eq!(tokens_of("#\nx"), vec![None, id("x"), None]);
}

#[test]
fn lexer_token_once_consumed_is_gone() {
    let mut lexer = Lexer::new(&"a b".to_string());
    assert_eq!(lexer.next_token(), id("a"));
    assert_eq!(lexer.next_token(), id("b"));
    assert_eq!(lexer.next_token(), None);
    assert_eq!(lexer.next_token(), None);
}

#[test]
fn lexer_from_segments_classifies_each_segment() {
    let mut lexer = Lexer::from_segments(vec![
        "(".to_string(),
        " ".to_string(),
        "car".to_string(),
        "abc".to_string(),
        "%".to_string(),
        ")".to_string(),
    ]);
    assert_eq!(lexer.next_token(), Some(Token::LParen));
    assert_eq!(lexer.next_token(), Some(Token::Car));
    assert_eq!(lexer.next_token(), id("abc"));
    assert_eq!(lexer.next_token(), None);
    assert_eq!(lexer.next_token(), Some(Token::RParen));
    assert_eq!(lexer.next_token(), None);
}

#[test]
fn lexer_from_segments_takes_segments_as_they_are() {
    let mut lexer = Lexer::from_segments(vec!["labelx".to_string(), "a b".to_string()]);
    assert_eq!(lexer.next_token(), id("labelx"));
    assert_eq!(lexer.next_token(), None);
    assert_eq!(lexer.next_token(), None);
}

#[test]
fn classify_prefers_fixed_tokens() {
    let seg = "label".to_string();
    assert_eq!(classify(&seg, true, false), Lexeme::Token(Token::Label));
    assert_eq!(classify(&seg, false, false), Lexeme::Token(Token::Label));
    assert_eq!(classify(&"(".to_string(), false, true), Lexeme::Token(Token::LParen));
    assert_eq!(classify(&")".to_string(), false, false), Lexeme::Token(Token::RParen));
    assert_eq!(classify(&",".to_string(), false, false), Lexeme::Token(Token::Comma));
    assert_eq!(classify(&"'".to_string(), false, false), Lexeme::Token(Token::Quote));
    assert_eq!(classify(&"apply".to_string(), true, false), Lexeme::Token(Token::Apply));
    assert_eq!(classify(&"lambda".to_string(), true, false), Lexeme::Token(Token::Lambda));
    assert_eq!(classify(&"cons".to_string(), true, false), Lexeme::Token(Token::Cons));
    assert_eq!(classify(&"cdr".to_string(), true, false), Lexeme::Token(Token::Cdr));
    assert_eq!(classify(&"car".to_string(), true, false), Lexeme::Token(Token::Car));
    assert_eq!(classify(&"eq".to_string(), true, false), Lexeme::Token(Token::Eq));
    assert_eq!(classify(&"atom".to_string(), true, false), Lexeme::Token(Token::Atom));
    assert_eq!(classify(&"cond".to_string(), true, false), Lexeme::Token(Token::Cond));
}

#[test]
fn classify_orders_identifier_before_blank_before_unknown() {
    let seg = "abc".to_string();
    assert_eq!(
        classify(&seg, true, true),
        Lexeme::Token(Token::Id("abc".to_string()))
    );
    assert_eq!(
        classify(&seg, true, false),
        Lexeme::Token(Token::Id("abc".to_string()))
    );
    assert_eq!(classify(&seg, false, true), Lexeme::Blank);
    assert_eq!(classify(&seg, false, false), Lexeme::Unknown);
}

#[test]
fn classify_segment_asks_the_patterns() {
    assert_eq!(
        classify_segment(&"x1".to_string()),
        Lexeme::Token(Token::Id("x1".to_string()))
    );
    assert_eq!(classify_segment(&" \t\n".to_string()), Lexeme::Blank);
    assert_eq!(classify_segment(&"1x".to_string()), Lexeme::Unknown);
    assert_eq!(classify_segment(&"x y".to_string()), Lexeme::Unknown);
    assert_eq!(classify_segment(&"x-y".to_string()), Lexeme::Unknown);
    assert_eq!(classify_segment(&"".to_string()), Lexeme::Unknown);
    assert_eq!(classify_segment(&" x".to_string()), Lexeme::Unknown);
    assert_eq!(classify_segment(&"cond".to_string()), Lexeme::Token(Token::Cond));
}

#[test]
fn pattern_texts() {
    assert_eq!(Lexer::ident_regex(), "[a-zA-Z][a-zA-Z0-9]*");
    assert_eq!(Lexer::space_regex(), "\\s+");
    assert_eq!(
        Lexer::scan_regex(),
        "'|,|\\(|\\)|[a-zA-Z][a-zA-Z0-9]*|\\s+|.*"
    );
    assert_eq!(anchored("ab"), "^(?:ab)$");
}

#[test]
fn spells_compares_whole_texts() {
    assert!(spells(&"T".to_string(), "T"));
    assert!(!spells(&"T".to_string(), "F"));
    assert!(!spells(&"TT".to_string(), "T"));
    assert!(spells(&"".to_string(), ""));
}

#[test]
fn lexer_knows_letters_of_the_ascii_alphabet_only() {
    assert_eq!(tokens_of("\u{e9}"), vec![None]);
    assert_eq!(tokens_of("x\u{e9}"), vec![id("x"), None]);
    assert_eq!(tokens_of("x_y"), vec![id("x"), None]);
}

#[test]
fn lexer_takes_every_kind_of_white_space_as_blank() {
    assert_eq!(tokens_of("x\r\ny"), vec![id("x"), id("y"), None]);
    assert_eq!(tokens_of("x\u{a0}y"), vec![id("x"), id("y"), None]);
    assert_eq!(tokens_of("x\u{2003}\u{3000}y"), vec![id("x"), id("y"), None]);
}

#[test]
fn lexer_unknown_text_runs_to_the_end_of_its_line() {
    assert_eq!(tokens_of("x # y z\nw"), vec![id("x"), None, id("w"), None]);
    assert_eq!(tokens_of("(car 1)"), vec![Some(Token::LParen), Some(Token::Car), None]);
}
