use ferrodb::syntax::tokens::{Keyword, Operator, Separator, Whitespace};

#[test]
fn classification_is_idempotent() {
    let first = Keyword::from("select");
    let second = Keyword::from("select");
    assert_eq!(first, second);
    assert_eq!(Operator::from(">="), Operator::from(">="));
    assert_eq!(Separator::from(","), Separator::from(","));
}

#[test]
fn keywords_match_case_insensitively() {
    assert_eq!(Keyword::from("SELECT"), Keyword::Select);
    assert_eq!(Keyword::from("select"), Keyword::Select);
    assert_eq!(Keyword::from("SeLeCt"), Keyword::Select);
    assert_eq!(Keyword::from("FROM"), Keyword::From);
    assert_eq!(Keyword::from("where"), Keyword::Where);
    assert_eq!(Keyword::from("transaction"), Keyword::Transaction);
    assert_eq!(Keyword::from("set"), Keyword::SetKw);
    assert_eq!(Keyword::from("selec"), Keyword::Invalid);
    assert_eq!(Keyword::from("selects"), Keyword::Invalid);
    assert_eq!(Keyword::from(""), Keyword::Invalid);
}

#[test]
fn operators_match_exactly() {
    assert_eq!(Operator::from("+"), Operator::Add);
    assert_eq!(Operator::from("-"), Operator::Subtract);
    assert_eq!(Operator::from("*"), Operator::Multiply);
    assert_eq!(Operator::from("/"), Operator::Divide);
    assert_eq!(Operator::from("%"), Operator::Modulo);
    assert_eq!(Operator::from("="), Operator::Eq);
    assert_eq!(Operator::from(">"), Operator::Gt);
    assert_eq!(Operator::from("<"), Operator::Lt);
    assert_eq!(Operator::from(">="), Operator::GtEq);
    assert_eq!(Operator::from("<="), Operator::LtEq);
    assert_eq!(Operator::from("!="), Operator::NotEq);
    assert_eq!(Operator::from("("), Operator::ParenOpen);
    assert_eq!(Operator::from(")"), Operator::ParenClose);
    assert_eq!(Operator::from("=="), Operator::Invalid);
    assert_eq!(Operator::from("x"), Operator::Invalid);
}

#[test]
fn whitespace_matches_single_characters() {
    assert_eq!(Whitespace::from(" "), Whitespace::Space);
    assert_eq!(Whitespace::from("\t"), Whitespace::Tab);
    assert_eq!(Whitespace::from("\n"), Whitespace::Newline);
    assert_eq!(Whitespace::from("  "), Whitespace::Invalid);
    assert_eq!(Whitespace::from("x"), Whitespace::Invalid);
}

#[test]
fn separators_take_priority_in_order() {
    assert_eq!(Separator::from(";"), Separator::Semicolon);
    assert_eq!(Separator::from(","), Separator::Comma);
    assert_eq!(Separator::from(" "), Separator::Whitespace(Whitespace::Space));
    assert_eq!(Separator::from("+"), Separator::Operator(Operator::Add));
    assert_eq!(Separator::from("abc"), Separator::Invalid);
}
