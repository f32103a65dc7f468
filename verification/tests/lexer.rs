use basic_script::lexer::{Lexeme, Lexer};
use basic_script::symbol_table::Identifier;

#[test]
fn test_lexer_symbols() {
    let input = String::from("({[]});,");

    let mut lexer = Lexer::new(input);

    assert_eq!(lexer.next_lexeme(), Lexeme::PARENTHESES_OPEN);
    assert_eq!(lexer.next_lexeme(), Lexeme::BRACE_OPEN);
    assert_eq!(lexer.next_lexeme(), Lexeme::BRACKET_OPEN);
    assert_eq!(lexer.next_lexeme(), Lexeme::BRACKET_CLOSE);
    assert_eq!(lexer.next_lexeme(), Lexeme::BRACE_CLOSE);
    assert_eq!(lexer.next_lexeme(), Lexeme::PARENTHESES_CLOSE);
    assert_eq!(lexer.next_lexeme(), Lexeme::SEMI_COLON);
    assert_eq!(lexer.next_lexeme(), Lexeme::COMMA);
    assert_eq!(lexer.next_lexeme(), Lexeme::EOF);
}

#[test]
fn test_lexer_operators() {
    let input = String::from("=+-/*%");

    let mut lexer = Lexer::new(input);

    assert_eq!(lexer.next_lexeme(), Lexeme::ASSIGN_OP);
    assert_eq!(lexer.next_lexeme(), Lexeme::PLUS_OP);
    assert_eq!(lexer.next_lexeme(), Lexeme::MINUS_OP);
    assert_eq!(lexer.next_lexeme(), Lexeme::DIVIDE_OP);
    assert_eq!(lexer.next_lexeme(), Lexeme::TIMES_OP);
    assert_eq!(lexer.next_lexeme(), Lexeme::MODULO_OP);
    assert_eq!(lexer.next_lexeme(), Lexeme::EOF);
}

#[test]
fn test_lexer_keywords() {
    let input = String::from("let mut fn return true false foo");

    let mut lexer = Lexer::new(input);

    let foo_identifier = Identifier::new("foo");

    assert_eq!(lexer.next_lexeme(), Lexeme::LET);
    assert_eq!(lexer.next_lexeme(), Lexeme::MUT);
    assert_eq!(lexer.next_lexeme(), Lexeme::FN);
    assert_eq!(lexer.next_lexeme(), Lexeme::RETURN);
    assert_eq!(lexer.next_lexeme(), Lexeme::TRUE);
    assert_eq!(lexer.next_lexeme(), Lexeme::FALSE);
    assert_eq!(lexer.next_lexeme(), Lexeme::IDENTIFIER(foo_identifier));
    assert_eq!(lexer.next_lexeme(), Lexeme::EOF);
}

#[test]
fn test_lexer_realistic_input() {
    let input = String::from(
        r#"fn main() -> u8 {
            let a = 5;
            let b : u8 = a + 3;

            return (b-8);
        }"#,
    );

    let mut lexer = Lexer::new(input);

    let main_identifier = Identifier::new("main");
    let a_identifier = Identifier::new("a");
    let b_identifier = Identifier::new("b");

    assert_eq!(lexer.next_lexeme(), Lexeme::FN);
    assert_eq!(lexer.next_lexeme(), Lexeme::IDENTIFIER(main_identifier.clone()));
    assert_eq!(lexer.next_lexeme(), Lexeme::PARENTHESES_OPEN);
    assert_eq!(lexer.next_lexeme(), Lexeme::PARENTHESES_CLOSE);
    assert_eq!(lexer.next_lexeme(), Lexeme::RETURN_TYPE_OP);
    assert_eq!(lexer.next_lexeme(), Lexeme::U8);
    assert_eq!(lexer.next_lexeme(), Lexeme::BRACE_OPEN);
    assert_eq!(lexer.next_lexeme(), Lexeme::LET);
    assert_eq!(lexer.next_lexeme(), Lexeme::IDENTIFIER(a_identifier.clone()));
    assert_eq!(lexer.next_lexeme(), Lexeme::ASSIGN_OP);
    assert_eq!(lexer.next_lexeme(), Lexeme::INT_LITERAL(5));
    assert_eq!(lexer.next_lexeme(), Lexeme::SEMI_COLON);
    assert_eq!(lexer.next_lexeme(), Lexeme::LET);
    assert_eq!(lexer.next_lexeme(), Lexeme::IDENTIFIER(b_identifier.clone()));
    assert_eq!(lexer.next_lexeme(), Lexeme::COLON);
    assert_eq!(lexer.next_lexeme(), Lexeme::U8);
    assert_eq!(lexer.next_lexeme(), Lexeme::ASSIGN_OP);
    assert_eq!(lexer.next_lexeme(), Lexeme::IDENTIFIER(a_identifier.clone()));
    assert_eq!(lexer.next_lexeme(), Lexeme::PLUS_OP);
    assert_eq!(lexer.next_lexeme(), Lexeme::INT_LITERAL(3));
    assert_eq!(lexer.next_lexeme(), Lexeme::SEMI_COLON);
    assert_eq!(lexer.next_lexeme(), Lexeme::RETURN);
    assert_eq!(lexer.next_lexeme(), Lexeme::PARENTHESES_OPEN);
    assert_eq!(lexer.next_lexeme(), Lexeme::IDENTIFIER(b_identifier.clone()));
    assert_eq!(lexer.next_lexeme(), Lexeme::MINUS_OP);
    assert_eq!(lexer.next_lexeme(), Lexeme::INT_LITERAL(8));
    assert_eq!(lexer.next_lexeme(), Lexeme::PARENTHESES_CLOSE);
    assert_eq!(lexer.next_lexeme(), Lexeme::SEMI_COLON);
    assert_eq!(lexer.next_lexeme(), Lexeme::BRACE_CLOSE);
    assert_eq!(lexer.next_lexeme(), Lexeme::EOF);
}
