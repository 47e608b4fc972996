use ferrodb::syntax::tokenizer::{tokenize, TokenizerError};
use ferrodb::syntax::tokens::{Keyword, Operator, Separator, Token, Whitespace};

fn collect_tokens(sql: &str) -> Result<Vec<Token>, TokenizerError> {
    let mut it = tokenize(sql);
    let mut out = Vec::new();
    loop {
        match it.next() {
            Some(Ok(token_item)) => out.push(token_item.token),
            Some(Err(e)) => return Err(e),
            None => return Ok(out),
        }
    }
}

#[test]
fn test_basic_select() {
    let tokens = collect_tokens("SELECT * FROM a_table").unwrap();
    assert_eq!(
        tokens,
        vec![
            Token::Keyword(Keyword::Select),
            Token::Separator(Separator::Whitespace(Whitespace::Space)),
            Token::Separator(Separator::Operator(Operator::Multiply)),
            Token::Separator(Separator::Whitespace(Whitespace::Space)),
            Token::Keyword(Keyword::From),
            Token::Separator(Separator::Whitespace(Whitespace::Space)),
            Token::Identifier("a_table".to_string()),
        ]
    );
}

#[test]
fn test_string_literal() {
    let tokens = collect_tokens(r#"SELECT "hello world""#).unwrap();
    assert_eq!(
        tokens,
        vec![
            Token::Keyword(Keyword::Select),
            Token::Separator(Separator::Whitespace(Whitespace::Space)),
            Token::String("hello world".to_string()),
        ]
    );
}

#[test]
fn test_numbers() {
    let tokens = collect_tokens("SELECT 42, 3.14").unwrap();
    assert_eq!(
        tokens,
        vec![
            Token::Keyword(Keyword::Select),
            Token::Separator(Separator::Whitespace(Whitespace::Space)),
            Token::Number("42".to_string()),
            Token::Separator(Separator::Comma),
            Token::Separator(Separator::Whitespace(Whitespace::Space)),
            Token::Number("3.14".to_string()),
        ]
    );
}

#[test]
fn test_operators() {
    let tokens = collect_tokens("1 + 2 >= 3").unwrap();
    assert_eq!(
        tokens,
        vec![
            Token::Number("1".to_string()),
            Token::Separator(Separator::Whitespace(Whitespace::Space)),
            Token::Separator(Separator::Operator(Operator::Add)),
            Token::Separator(Separator::Whitespace(Whitespace::Space)),
            Token::Number("2".to_string()),
            Token::Separator(Separator::Whitespace(Whitespace::Space)),
            Token::Separator(Separator::Operator(Operator::GtEq)),
            Token::Separator(Separator::Whitespace(Whitespace::Space)),
            Token::Number("3".to_string()),
        ]
    );
}

#[test]
fn test_comments() {
    let tokens = collect_tokens("SELECT -- this is a comment\n42").unwrap();
    assert_eq!(
        tokens,
        vec![
            Token::Keyword(Keyword::Select),
            Token::Separator(Separator::Whitespace(Whitespace::Space)),
            Token::Separator(Separator::Whitespace(Whitespace::Newline)),
            Token::Number("42".to_string()),
        ]
    );
}

#[test]
fn test_unterminated_string() {
    let result = collect_tokens(r#"SELECT "unterminated"#);
    assert!(matches!(result, Err(TokenizerError::UnterminatedString(_))));
}

#[test]
fn test_invalid_number() {
    let result = collect_tokens("SELECT 3.14.15");
    assert!(matches!(result, Err(TokenizerError::InvalidNumber(_))));
}

#[test]
fn test_final_token() {
    let tokens = collect_tokens("SELECT abc").unwrap();
    assert_eq!(
        tokens,
        vec![
            Token::Keyword(Keyword::Select),
            Token::Separator(Separator::Whitespace(Whitespace::Space)),
            Token::Identifier("abc".to_string()),
        ]
    );
}

#[test]
fn sentinel_flush_bare_identifier() {
    let tokens = collect_tokens("abc").unwrap();
    assert_eq!(tokens, vec![Token::Identifier("abc".to_string())]);
}

#[test]
fn empty_input_yields_nothing() {
    let tokens = collect_tokens("").unwrap();
    assert_eq!(tokens, Vec::<Token>::new());
}

#[test]
fn number_adjacent_to_operator() {
    let tokens = collect_tokens("1+2").unwrap();
    assert_eq!(
        tokens,
        vec![
            Token::Number("1".to_string()),
            Token::Separator(Separator::Operator(Operator::Add)),
            Token::Number("2".to_string()),
        ]
    );
}

#[test]
fn identifier_then_semicolon() {
    let tokens = collect_tokens("a;b").unwrap();
    assert_eq!(
        tokens,
        vec![
            Token::Identifier("a".to_string()),
            Token::Separator(Separator::Semicolon),
            Token::Identifier("b".to_string()),
        ]
    );
}

#[test]
fn tab_separates_identifiers() {
    let tokens = collect_tokens("a\tb").unwrap();
    assert_eq!(
        tokens,
        vec![
            Token::Identifier("a".to_string()),
            Token::Separator(Separator::Whitespace(Whitespace::Tab)),
            Token::Identifier("b".to_string()),
        ]
    );
}

#[test]
fn comment_scenario() {
    let tokens = collect_tokens("SELECT -- comment\n42").unwrap();
    assert_eq!(
        tokens,
        vec![
            Token::Keyword(Keyword::Select),
            Token::Separator(Separator::Whitespace(Whitespace::Space)),
            Token::Separator(Separator::Whitespace(Whitespace::Newline)),
            Token::Number("42".to_string()),
        ]
    );
}

#[test]
fn positions_tile_the_input() {
    let mut it = tokenize("ab cd");
    let first = it.next().unwrap().unwrap();
    assert_eq!((first.start.row, first.start.col), (0, 0));
    assert_eq!((first.end.row, first.end.col), (0, 2));
    let space = it.next().unwrap().unwrap();
    assert_eq!((space.start.row, space.start.col), (0, 2));
    assert_eq!((space.end.row, space.end.col), (0, 3));
    let second = it.next().unwrap().unwrap();
    assert_eq!((second.start.row, second.start.col), (0, 3));
    assert_eq!((second.end.row, second.end.col), (0, 5));
    assert!(it.next().is_none());
}

#[test]
fn newline_resets_column_and_advances_row() {
    let mut it = tokenize("a\nb");
    let first = it.next().unwrap().unwrap();
    assert_eq!(first.token, Token::Identifier("a".to_string()));
    assert_eq!((first.start.row, first.start.col), (0, 0));
    let newline = it.next().unwrap().unwrap();
    assert_eq!(
        newline.token,
        Token::Separator(Separator::Whitespace(Whitespace::Newline))
    );
    assert_eq!((newline.start.row, newline.start.col), (0, 1));
    assert_eq!((newline.end.row, newline.end.col), (1, 0));
    let second = it.next().unwrap().unwrap();
    assert_eq!(second.token, Token::Identifier("b".to_string()));
    assert_eq!((second.start.row, second.start.col), (1, 0));
    assert_eq!((second.end.row, second.end.col), (1, 1));
    assert!(it.next().is_none());
}

#[test]
fn unterminated_string_reports_opening_quote() {
    let mut it = tokenize("\"abc");
    match it.next() {
        Some(Err(TokenizerError::UnterminatedString(loc))) => {
            assert_eq!((loc.row, loc.col), (0, 0));
        }
        other => panic!("expected an unterminated string error, got {:?}", other),
    }
    assert!(it.next().is_none());
}

#[test]
fn invalid_number_reports_literal_start() {
    let mut it = tokenize("1.2.3");
    match it.next() {
        Some(Err(TokenizerError::InvalidNumber(loc))) => {
            assert_eq!((loc.row, loc.col), (0, 0));
        }
        other => panic!("expected an invalid number error, got {:?}", other),
    }
    assert!(it.next().is_none());
}

#[test]
fn error_is_yielded_exactly_once() {
    let mut it = tokenize(r#"x "open"#);
    assert!(matches!(it.next(), Some(Ok(_))));
    assert!(matches!(it.next(), Some(Ok(_))));
    assert!(matches!(
        it.next(),
        Some(Err(TokenizerError::UnterminatedString(_)))
    ));
    assert!(it.next().is_none());
    assert!(it.next().is_none());
}

#[test]
fn positions_are_monotonic_through_a_run() {
    let mut it = tokenize("SELECT a, 1.5 >= b -- trailing\nFROM t");
    let mut previous_end: Option<(usize, usize)> = None;
    loop {
        match it.next() {
            Some(Ok(item)) => {
                let start = (item.start.row, item.start.col);
                let end = (item.end.row, item.end.col);
                assert!(start <= end);
                if let Some(prev) = previous_end {
                    assert!(prev <= start);
                }
                previous_end = Some(end);
            }
            Some(Err(e)) => panic!("unexpected error: {:?}", e),
            None => break,
        }
    }
}

#[test]
fn spans_concatenate_to_the_input() {
    let input = "1 + 2 >= x;";
    let chars: Vec<char> = input.chars().collect();
    let mut rebuilt = String::new();
    let mut it = tokenize(input);
    loop {
        match it.next() {
            Some(Ok(item)) => {
                assert_eq!(item.start.row, 0);
                assert_eq!(item.end.row, 0);
                for k in item.start.col..item.end.col {
                    rebuilt.push(chars[k]);
                }
            }
            Some(Err(e)) => panic!("unexpected error: {:?}", e),
            None => break,
        }
    }
    assert_eq!(rebuilt, input);
}
