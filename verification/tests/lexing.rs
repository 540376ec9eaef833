//! Token-level tests of the lexer.

use luar::lexer::{Lexer, Token};

#[test]
fn unterminated_string_yields_partial_content() {
    let mut lex = Lexer::new("\"abc");
    assert_eq!(lex.next(), Token::ConstString("abc".to_string()));
    assert_eq!(lex.next(), Token::Eos);
}

#[test]
fn unterminated_single_quote_string() {
    let mut lex = Lexer::new("'ab");
    assert_eq!(lex.next(), Token::ConstString("ab".to_string()));
    assert_eq!(lex.next(), Token::Eos);
}

#[test]
fn empty_unterminated_string() {
    let mut lex = Lexer::new("\"");
    assert_eq!(lex.next(), Token::ConstString(String::new()));
    assert_eq!(lex.next(), Token::Eos);
}

#[test]
fn all_keywords_are_reserved() {
    let src = "and break do else elseif end false for function goto if in local nil \
               not or repeat return then true until while";
    let mut lex = Lexer::new(src);
    let expected = [
        Token::And,
        Token::Break,
        Token::Do,
        Token::Else,
        Token::Elseif,
        Token::End,
        Token::False,
        Token::For,
        Token::Function,
        Token::Goto,
        Token::If,
        Token::In,
        Token::Local,
        Token::Nil,
        Token::Not,
        Token::Or,
        Token::Repeat,
        Token::Return,
        Token::Then,
        Token::True,
        Token::Until,
        Token::While,
    ];
    for t in expected {
        assert_eq!(lex.next(), t);
    }
    assert_eq!(lex.next(), Token::Eos);
}

#[test]
fn case_sensitive_keyword_match() {
    let mut lex = Lexer::new("And nIl");
    assert_eq!(lex.next(), Token::Name("And".to_string()));
    assert_eq!(lex.next(), Token::Name("nIl".to_string()));
    assert_eq!(lex.next(), Token::Eos);
}

#[test]
fn identifier_with_underscore_and_digits() {
    let mut lex = Lexer::new("_foo2 a_1b");
    assert_eq!(lex.next(), Token::Name("_foo2".to_string()));
    assert_eq!(lex.next(), Token::Name("a_1b".to_string()));
    assert_eq!(lex.next(), Token::Eos);
}

#[test]
fn operators_and_punctuation() {
    let src = "+ - * / // % ^ # & ~ ~= | << >> == <= >= < > = ( ) { } [ ] :: ; : , . .. ...";
    let mut lex = Lexer::new(src);
    let expected = [
        Token::Add,
        Token::Sub,
        Token::Mul,
        Token::Div,
        Token::Idiv,
        Token::Mod,
        Token::Pow,
        Token::Len,
        Token::BitAnd,
        Token::BitXor,
        Token::NotEq,
        Token::BitOr,
        Token::ShiftLeft,
        Token::ShiftRight,
        Token::Eq,
        Token::LessEq,
        Token::GreaterEq,
        Token::Less,
        Token::Greater,
        Token::Assign,
        Token::ParLeft,
        Token::ParRight,
        Token::CurlyLeft,
        Token::CurlyRight,
        Token::SqurLeft,
        Token::SqurRight,
        Token::DoubColon,
        Token::SemiColon,
        Token::Colon,
        Token::Comma,
        Token::Dot,
        Token::Concat,
        Token::Dots,
    ];
    for t in expected {
        assert_eq!(lex.next(), t);
    }
    assert_eq!(lex.next(), Token::Eos);
}

#[test]
fn adjacent_multi_char_operators() {
    let mut lex = Lexer::new("==~=..=");
    assert_eq!(lex.next(), Token::Eq);
    assert_eq!(lex.next(), Token::NotEq);
    assert_eq!(lex.next(), Token::Concat);
    assert_eq!(lex.next(), Token::Assign);
    assert_eq!(lex.next(), Token::Eos);
}

#[test]
fn integer_and_float_literals() {
    let mut lex = Lexer::new("0 42 32767 32768 1.5 1. 007");
    assert_eq!(lex.next(), Token::ConstInteger(0));
    assert_eq!(lex.next(), Token::ConstInteger(42));
    assert_eq!(lex.next(), Token::ConstInteger(32767));
    assert_eq!(lex.next(), Token::ConstInteger(32768));
    assert_eq!(lex.next(), Token::ConstFloat("1.5".to_string()));
    assert_eq!(lex.next(), Token::ConstFloat("1.".to_string()));
    assert_eq!(lex.next(), Token::ConstInteger(7));
    assert_eq!(lex.next(), Token::Eos);
}

#[test]
fn second_decimal_point_ends_the_literal() {
    let mut lex = Lexer::new("1.2.3");
    assert_eq!(lex.next(), Token::ConstFloat("1.2".to_string()));
    assert_eq!(lex.next(), Token::Dot);
    assert_eq!(lex.next(), Token::ConstInteger(3));
    assert_eq!(lex.next(), Token::Eos);
}

#[test]
fn largest_i64_literal_fits() {
    let mut lex = Lexer::new("9223372036854775807");
    assert_eq!(lex.next(), Token::ConstInteger(i64::MAX));
    assert_eq!(lex.next(), Token::Eos);
}

#[test]
fn overflowing_integer_literal_is_silently_dropped() {
    let mut lex = Lexer::new("99999999999999999999 nil");
    assert_eq!(lex.next(), Token::Nil);
    assert_eq!(lex.next(), Token::Eos);
}

#[test]
fn comment_introducer_skips_line() {
    let mut lex = Lexer::new("-- whole line\nnil");
    assert_eq!(lex.next(), Token::Nil);
    assert_eq!(lex.next(), Token::Eos);
}

#[test]
fn single_dash_is_subtraction() {
    let mut lex = Lexer::new("- x");
    assert_eq!(lex.next(), Token::Sub);
    assert_eq!(lex.next(), Token::Name("x".to_string()));
    assert_eq!(lex.next(), Token::Eos);
}

#[test]
fn string_may_hold_the_other_quote() {
    let mut lex = Lexer::new("\"it's\"");
    assert_eq!(lex.next(), Token::ConstString("it's".to_string()));
    assert_eq!(lex.next(), Token::Eos);
}
