use monkey::is_letter;
use monkey::Token;

#[test]
fn check_is_letter() {
    assert!(is_letter('a'));
    assert!(is_letter('P'));
    assert!(is_letter('_'));
    assert!(!is_letter('3'));
    assert!(!is_letter('{'));
}

#[test]
fn keywords_map_to_their_tokens() {
    assert_eq!(Token::is_str_keywords("let"), Some(Token::LET));
    assert_eq!(Token::is_str_keywords("fn"), Some(Token::FUNCTION));
    assert_eq!(Token::is_str_keywords("if"), Some(Token::IF));
    assert_eq!(Token::is_str_keywords("else"), Some(Token::ELSE));
    assert_eq!(Token::is_str_keywords("return"), Some(Token::RETURN));
    assert_eq!(Token::is_str_keywords("true"), Some(Token::TRUE));
    assert_eq!(Token::is_str_keywords("false"), Some(Token::FALSE));
    assert_eq!(Token::is_str_keywords("letter"), None);
    assert_eq!(Token::is_str_keywords(""), None);
}
