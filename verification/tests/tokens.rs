use dnd_tracker::token::{Token, Tokenizer};

#[test]
fn test_token_reads() {
    let mut tk = Tokenizer::new("hello:52 + d6");
    assert_eq!(tk.next(), Some(Token::Ident("hello".to_string())));
    assert_eq!(tk.next(), Some(Token::Colon), "c1-2");
    assert_eq!(tk.next(), Some(Token::Num(52)));
    assert_eq!(tk.next(), Some(Token::Add));
    assert_eq!(tk.next(), Some(Token::Ident("d6".to_string())));
    assert!(tk.next().is_none());
}

#[test]
fn test_qoth() {
    let mut tk = Tokenizer::new(r#"hello:"Goodbye","Nice","to \"meet\" you""#);
    assert_eq!(tk.next().unwrap(), Token::Ident("hello".to_string()));
    assert_eq!(tk.next().unwrap(), Token::Colon);
    assert_eq!(tk.next().unwrap(), Token::Qoth("Goodbye".to_string()));
    assert_eq!(tk.next().unwrap(), Token::Comma);
    assert_eq!(tk.next().unwrap(), Token::Qoth("Nice".to_string()));
    assert_eq!(tk.next().unwrap(), Token::Comma);
    assert_eq!(
        tk.next().unwrap(),
        Token::Qoth("to \"meet\" you".to_string())
    );
    assert!(tk.next().is_none());
}

#[test]
fn keywords_and_line_count() {
    let mut tk = Tokenizer::new("true false expr fn func\nx;");
    assert_eq!(tk.next(), Some(Token::True));
    assert_eq!(tk.next(), Some(Token::False));
    assert_eq!(tk.next(), Some(Token::Expr));
    assert_eq!(tk.next(), Some(Token::Fn));
    assert_eq!(tk.next(), Some(Token::Fn));
    assert_eq!(tk.line_no, 0);
    assert_eq!(tk.next(), Some(Token::Break));
    assert_eq!(tk.line_no, 1);
    assert_eq!(tk.next(), Some(Token::Ident("x".to_string())));
    assert_eq!(tk.next(), Some(Token::Break));
    assert_eq!(tk.line_no, 1);
    assert_eq!(tk.next(), None);
}

#[test]
fn number_token_saturates() {
    let mut tk = Tokenizer::new("99999999999999999999");
    assert_eq!(tk.next(), Some(Token::Num(i32::MAX)));
    assert_eq!(tk.next(), None);
}

#[test]
fn special_characters_spell_tokens() {
    assert_eq!(Token::special_char('#'), Some(Token::Hash));
    assert_eq!(Token::special_char('$'), Some(Token::Dollar));
    assert_eq!(Token::special_char(';'), Some(Token::Break));
    assert_eq!(Token::special_char('\n'), Some(Token::Break));
    assert_eq!(Token::special_char('a'), None);
    assert_eq!(Token::Ident("ab".to_string()).as_str_val().unwrap(), "ab");
    assert!(Token::Colon.as_str_val().is_err());
}
