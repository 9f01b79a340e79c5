use minicompiler::tokenizer::{Token, Tokenizer};

#[test]
fn is_running() {
    assert_eq!(2, 2);
}

#[test]
fn eos() {
    let mut t = Tokenizer::new("");
    assert!(matches!(t.token, Token::EOS));
    t.next_token();
    assert!(matches!(t.token, Token::EOS));
}

#[test]
fn skip_unknown() {
    let mut t = Tokenizer::new("13+");
    assert!(matches!(t.token, Token::ONE));
    t.next_token();
    assert!(matches!(t.token, Token::PLUS));
    t.next_token();
    assert!(matches!(t.token, Token::EOS));
    t.next_token();
}

#[test]
fn tokenize() {
    let mut t = Tokenizer::new("012()+*");
    assert!(matches!(t.token, Token::ZERO));
    t.next_token();
    assert!(matches!(t.token, Token::ONE));
    t.next_token();
    assert!(matches!(t.token, Token::TWO));
    t.next_token();
    assert!(matches!(t.token, Token::OPEN));
    t.next_token();
    assert!(matches!(t.token, Token::CLOSE));
    t.next_token();
    assert!(matches!(t.token, Token::PLUS));
    t.next_token();
    assert!(matches!(t.token, Token::MULT));
    t.next_token();
    assert!(matches!(t.token, Token::EOS));
}

#[test]
fn cursor_tracks_columns() {
    let mut t = Tokenizer::new("a 1 ä+");
    assert_eq!(t.current_token(), Token::ONE);
    assert_eq!(t.position(), 3);
    t.next_token();
    assert_eq!(t.current_token(), Token::PLUS);
    assert_eq!(t.position(), 6);
    t.next_token();
    assert_eq!(t.current_token(), Token::EOS);
    assert_eq!(t.position(), 6);
    t.next_token();
    assert_eq!(t.position(), 6);
}

#[test]
fn empty_and_unrecognized_input() {
    let t = Tokenizer::new("  xyz 3");
    assert_eq!(t.token, Token::EOS);
    assert_eq!(t.position(), 7);
}
