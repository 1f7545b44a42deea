use gobol::lexer::Lexer;
use gobol::token::{Token, TokenType, token_type_to_str};

#[test]
fn test_lexer_identifier() {
    let mut lexer = Lexer::new("hello");
    let token = lexer.get_next_token();
    assert_eq!(token.token_type, TokenType::Identifier);
    assert_eq!(token.value, "hello");
}

#[test]
fn test_lexer_keyword() {
    let mut lexer = Lexer::new("func var val struct impl");

    let token = lexer.get_next_token();
    assert_eq!(token.token_type, TokenType::Keyword);
    assert_eq!(token.value, "func");

    let token = lexer.get_next_token();
    assert_eq!(token.token_type, TokenType::Keyword);
    assert_eq!(token.value, "var");

    let token = lexer.get_next_token();
    assert_eq!(token.token_type, TokenType::Keyword);
    assert_eq!(token.value, "val");

    let token = lexer.get_next_token();
    assert_eq!(token.token_type, TokenType::Keyword);
    assert_eq!(token.value, "struct");

    let token = lexer.get_next_token();
    assert_eq!(token.token_type, TokenType::Keyword);
    assert_eq!(token.value, "impl");
}

#[test]
fn test_lexer_number() {
    let mut lexer = Lexer::new("123 45.67");

    let token = lexer.get_next_token();
    assert_eq!(token.token_type, TokenType::Number);
    assert_eq!(token.value, "123");

    let token = lexer.get_next_token();
    assert_eq!(token.token_type, TokenType::Number);
    assert_eq!(token.value, "45.67");
}

#[test]
fn test_lexer_string() {
    let mut lexer = Lexer::new("\"hello\"");
    let token = lexer.get_next_token();
    assert_eq!(token.token_type, TokenType::String);
    assert_eq!(token.value, "hello");
}

#[test]
fn test_lexer_format_string() {
    let mut lexer = Lexer::new("@\"Hello {name}\"");
    let token = lexer.get_next_token();
    assert_eq!(token.token_type, TokenType::FormatString);
    assert_eq!(token.value, "Hello {name}");
}

#[test]
fn test_lexer_operators() {
    let mut lexer = Lexer::new("+ - * / = == != < > <= >= && || !");

    let expected = vec!["+", "-", "*", "/", "=", "==", "!=", "<", ">", "<=", ">=", "&&", "||", "!"];

    for op in expected {
        let token = lexer.get_next_token();
        assert_eq!(token.token_type, TokenType::Operator);
        assert_eq!(token.value, op);
    }
}

#[test]
fn test_lexer_range_operator() {
    let mut lexer = Lexer::new("0..10");

    let token = lexer.get_next_token();
    assert_eq!(token.token_type, TokenType::Number);
    assert_eq!(token.value, "0");

    let token = lexer.get_next_token();
    assert_eq!(token.token_type, TokenType::Operator);
    assert_eq!(token.value, "..");

    let token = lexer.get_next_token();
    assert_eq!(token.token_type, TokenType::Number);
    assert_eq!(token.value, "10");
}

#[test]
fn test_lexer_compound_assignment() {
    let mut lexer = Lexer::new("+= -= *= /=");

    let expected = vec!["+=", "-=", "*=", "/="];

    for op in expected {
        let token = lexer.get_next_token();
        assert_eq!(token.token_type, TokenType::Operator);
        assert_eq!(token.value, op);
    }
}

#[test]
fn test_lexer_null() {
    let mut lexer = Lexer::new("null");
    let token = lexer.get_next_token();
    assert_eq!(token.token_type, TokenType::Keyword);
    assert_eq!(token.value, "null");
}

#[test]
fn test_lexer_self_keyword() {
    let mut lexer = Lexer::new("self");
    let token = lexer.get_next_token();
    assert_eq!(token.token_type, TokenType::Keyword);
    assert_eq!(token.value, "self");
}

#[test]
fn lexer_end_of_file_repeats_with_empty_text() {
    let mut lexer = Lexer::new("x");
    let first = lexer.get_next_token();
    assert_eq!(first.token_type, TokenType::Identifier);
    for _ in 0..3 {
        let t = lexer.get_next_token();
        assert_eq!(t.token_type, TokenType::EndOfFile);
        assert_eq!(t.value, "");
    }
}

#[test]
fn lexer_reset_position_starts_over() {
    let mut lexer = Lexer::new("var x = 1");
    let a = lexer.get_next_token();
    let b = lexer.get_next_token();
    lexer.reset_position();
    assert_eq!(lexer.get_next_token(), a);
    assert_eq!(lexer.get_next_token(), b);
}

#[test]
fn lexer_skips_comments() {
    let mut lexer = Lexer::new("// note\n/* block */ y");
    let mut t = lexer.get_next_token();
    while t.token_type == TokenType::EndOfLine {
        t = lexer.get_next_token();
    }
    assert_eq!(t.token_type, TokenType::Identifier);
    assert_eq!(t.value, "y");
}

#[test]
fn token_constructors_keep_their_fields() {
    let t = Token::new(TokenType::Number, "7".to_string());
    assert_eq!((t.line, t.col), (0, 0));
    let u = Token::with_pos(TokenType::Operator, "+".to_string(), 3, 4);
    assert_eq!(u.token_type, TokenType::Operator);
    assert_eq!(u.value, "+");
    assert_eq!((u.line, u.col), (3, 4));
}

#[test]
fn token_type_names() {
    assert_eq!(token_type_to_str(&TokenType::Identifier), "identifier");
    assert_eq!(token_type_to_str(&TokenType::EndOfFile), "end_of_file");
}

#[test]
fn next_token_cut_is_detected_before_lexing() {
    let lexer = Lexer::new("\u{e9}");
    assert!(lexer.next_token_cuts_char());
    let quoted = Lexer::new("  \"\u{e9}\"");
    assert!(!quoted.next_token_cuts_char());
    let plain = Lexer::new("// note\nabc");
    assert!(!plain.next_token_cuts_char());
}

#[test]
fn a_single_word_is_one_token() {
    let reserved = [
        "if", "else", "for", "return", "int", "float", "str", "func", "var", "val", "module", "import", "in", "true",
        "false", "while", "break", "continue", "null", "self", "export", "struct", "impl", "constructor", "new", "convert",
        "operator",
    ];
    for word in reserved {
        let token = Lexer::new(word).get_next_token();
        assert_eq!(token.token_type, TokenType::Keyword);
        assert_eq!(token.value, word);
    }
    for word in ["bool", "enum", "trait", "_x1", "If", "selfish"] {
        let token = Lexer::new(word).get_next_token();
        assert_eq!(token.token_type, TokenType::Identifier);
        assert_eq!(token.value, word);
    }
}
