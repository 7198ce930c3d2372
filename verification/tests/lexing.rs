use acc_toolchain::lexer::lex;
use acc_toolchain::token::TokenKind;

fn kinds(src: &str) -> Vec<TokenKind> {
    lex(src).unwrap().into_iter().map(|t| t.kind).collect()
}

#[test]
fn keywords_identifiers_and_numbers() {
    let ks = kinds("fn main let x1 i32 String return 42");
    assert!(matches!(ks[0], TokenKind::FnDecl));
    assert!(matches!(&ks[1], TokenKind::Variable(s) if s == "main"));
    assert!(matches!(ks[2], TokenKind::Let));
    assert!(matches!(&ks[3], TokenKind::Variable(s) if s == "x1"));
    assert!(matches!(ks[4], TokenKind::I32Decl));
    assert!(matches!(ks[5], TokenKind::StringType));
    assert!(matches!(ks[6], TokenKind::Return));
    assert!(matches!(ks[7], TokenKind::Number(42)));
    assert!(matches!(ks[8], TokenKind::EOF));
    assert_eq!(ks.len(), 9);
}

#[test]
fn operators_take_two_characters_where_they_can() {
    let ks = kinds("-> == != <= >= && || - = ! < > & | ^ ~ + * / %");
    let expected = [
        TokenKind::Arrow, TokenKind::OpEq, TokenKind::OpNotEq, TokenKind::OpLessOrEq, TokenKind::OpGreaterOrEq,
        TokenKind::OpAnd, TokenKind::OpOr, TokenKind::OpSub, TokenKind::Assign, TokenKind::OpNot,
        TokenKind::OpLessThan, TokenKind::OpGreaterThan, TokenKind::OpBitAnd, TokenKind::OpBitOr, TokenKind::OpXor,
        TokenKind::OpBitNot, TokenKind::OpAdd, TokenKind::OpMul, TokenKind::OpDiv, TokenKind::OpRem, TokenKind::EOF,
    ];
    assert_eq!(ks.len(), expected.len());
    for (a, b) in ks.iter().zip(expected.iter()) {
        assert_eq!(std::mem::discriminant(a), std::mem::discriminant(b));
    }
}

#[test]
fn strings_unescape() {
    let ks = kinds("\"a\\nb\\\"c\\\\\"");
    assert!(matches!(&ks[0], TokenKind::String(s) if s == "a\nb\"c\\"));
}

#[test]
fn comments_and_positions() {
    let ts = lex("// note\n  x // more\ny").unwrap();
    assert_eq!(ts.len(), 3);
    assert!(matches!(&ts[0].kind, TokenKind::Variable(s) if s == "x"));
    assert_eq!((ts[0].line, ts[0].col), (2, 3));
    assert_eq!((ts[1].line, ts[1].col), (3, 1));
    assert_eq!((ts[2].line, ts[2].col), (3, 2));
}

#[test]
fn empty_text_has_only_the_end() {
    let ts = lex("").unwrap();
    assert_eq!(ts.len(), 1);
    assert!(matches!(ts[0].kind, TokenKind::EOF));
    assert_eq!((ts[0].line, ts[0].col), (1, 1));
}

#[test]
fn largest_number_fits() {
    let ks = kinds("2147483647");
    assert!(matches!(ks[0], TokenKind::Number(2147483647)));
    assert!(lex("2147483648").is_err());
}
