use ferox::error::FeroxError;
use ferox::scanner::Scanner;
use ferox::token::{Decimal, Token, TokenType};

fn scan(source: &str) -> (Vec<Token>, Vec<FeroxError>) {
    let mut scanner = Scanner::new(source);
    let tokens = scanner.scan_tokens().unwrap();
    (tokens, scanner.errors)
}

fn types(tokens: &[Token]) -> Vec<TokenType> {
    tokens.iter().map(|t| t.token_type.clone()).collect()
}

fn descriptions(errors: &[FeroxError]) -> Vec<(String, usize)> {
    errors
        .iter()
        .map(|e| match e {
            FeroxError::SyntaxError { error_description, line_number } => {
                (error_description.clone(), *line_number)
            }
            FeroxError::InvalidFilePathError { file_path } => (file_path.clone(), usize::MAX),
        })
        .collect()
}

fn number_value(t: &TokenType) -> f64 {
    match t {
        TokenType::Number { value } => {
            let text = if value.fraction_digits.is_empty() {
                value.integer_digits.clone()
            } else {
                format!("{}.{}", value.integer_digits, value.fraction_digits)
            };
            text.parse::<f64>().unwrap()
        }
        other => panic!("not a number: {:?}", other),
    }
}

#[test]
fn every_scan_ends_with_one_empty_eof() {
    for source in ["", "(", "var x = 1;", "@", "\"open", "// only a comment", "a\nb\n\n"] {
        let (tokens, _) = scan(source);
        let last = tokens.last().unwrap();
        assert_eq!(last.token_type, TokenType::Eof);
        assert_eq!(last.lexeme, "");
        let eofs = tokens.iter().filter(|t| t.token_type == TokenType::Eof).count();
        assert_eq!(eofs, 1, "source {:?}", source);
    }
}

#[test]
fn empty_source_yields_only_eof() {
    let (tokens, errors) = scan("");
    assert_eq!(tokens, vec![Token::new(TokenType::Eof, String::new(), 0)]);
    assert!(errors.is_empty());
}

#[test]
fn eof_is_on_the_last_line() {
    let (tokens, _) = scan("a\nb\n\n");
    assert_eq!(tokens.last().unwrap().line_number, 3);
}

#[test]
fn single_punctuation_yields_one_token() {
    let cases = [
        ("(", TokenType::LeftParentheses),
        (")", TokenType::RightParentheses),
        ("{", TokenType::LeftBrace),
        ("}", TokenType::RightBrace),
        (",", TokenType::Comma),
        (".", TokenType::Dot),
        ("-", TokenType::Minus),
        ("+", TokenType::Plus),
        (";", TokenType::SemiColon),
        ("*", TokenType::Star),
        ("/", TokenType::Slash),
        ("!", TokenType::Bang),
        ("=", TokenType::Equal),
        ("<", TokenType::Less),
        (">", TokenType::Greater),
    ];
    for (source, expected) in cases {
        let (tokens, errors) = scan(source);
        assert_eq!(tokens.len(), 2, "source {:?}", source);
        assert_eq!(tokens[0].token_type, expected);
        assert_eq!(tokens[0].lexeme, source);
        assert_eq!(tokens[0].line_number, 0);
        assert!(errors.is_empty());
    }
}

#[test]
fn bang_equal_is_one_token() {
    let (tokens, errors) = scan("!=");
    assert_eq!(types(&tokens), vec![TokenType::BangEqual, TokenType::Eof]);
    assert_eq!(tokens[0].lexeme, "!=");
    assert!(errors.is_empty());
}

#[test]
fn two_character_operators() {
    let (tokens, _) = scan("== <= >= !=");
    assert_eq!(
        types(&tokens),
        vec![
            TokenType::EqualEqual,
            TokenType::LessEqual,
            TokenType::GreaterEqual,
            TokenType::BangEqual,
            TokenType::Eof
        ]
    );
}

#[test]
fn bang_before_other_character_stands_alone() {
    let (tokens, errors) = scan("!(");
    assert_eq!(types(&tokens), vec![TokenType::Bang, TokenType::LeftParentheses, TokenType::Eof]);
    assert_eq!(tokens[0].lexeme, "!");
    assert_eq!(tokens[1].lexeme, "(");
    assert!(errors.is_empty());
}

#[test]
fn equal_then_equal_equal() {
    let (tokens, _) = scan("===");
    assert_eq!(types(&tokens), vec![TokenType::EqualEqual, TokenType::Equal, TokenType::Eof]);
}

#[test]
fn line_comment_yields_no_token() {
    let (tokens, errors) = scan("// comment\n(");
    assert_eq!(types(&tokens), vec![TokenType::LeftParentheses, TokenType::Eof]);
    assert_eq!(tokens[0].line_number, 1);
    assert!(errors.is_empty());
}

#[test]
fn comment_to_end_of_input() {
    let (tokens, errors) = scan("( // ) \"");
    assert_eq!(types(&tokens), vec![TokenType::LeftParentheses, TokenType::Eof]);
    assert!(errors.is_empty());
}

#[test]
fn slash_is_division() {
    let (tokens, _) = scan("a / b");
    assert_eq!(tokens[1].token_type, TokenType::Slash);
    assert_eq!(tokens[1].lexeme, "/");
}

#[test]
fn string_literal_is_decoded() {
    let (tokens, errors) = scan("\"hello\"");
    assert_eq!(tokens.len(), 2);
    assert_eq!(tokens[0].token_type, TokenType::String { value: "hello".to_string() });
    assert_eq!(tokens[0].lexeme, "\"hello\"");
    assert!(errors.is_empty());
}

#[test]
fn empty_string_literal() {
    let (tokens, _) = scan("\"\"");
    assert_eq!(tokens[0].token_type, TokenType::String { value: String::new() });
}

#[test]
fn string_literal_keeps_backslashes() {
    let (tokens, _) = scan("\"a\\nb\"");
    assert_eq!(tokens[0].token_type, TokenType::String { value: "a\\nb".to_string() });
}

#[test]
fn unterminated_string_is_an_error() {
    let (tokens, errors) = scan("\"unterminated");
    assert_eq!(types(&tokens), vec![TokenType::Eof]);
    assert_eq!(descriptions(&errors), vec![("Unterminated string".to_string(), 0)]);
}

#[test]
fn unterminated_string_reports_its_last_line() {
    let (tokens, errors) = scan("(\"a\nb\n");
    assert_eq!(types(&tokens), vec![TokenType::LeftParentheses, TokenType::Eof]);
    assert_eq!(descriptions(&errors), vec![("Unterminated string".to_string(), 2)]);
    assert_eq!(tokens[1].line_number, 2);
}

#[test]
fn multi_line_string_starts_on_its_first_line() {
    let (tokens, errors) = scan("\"a\nb\" x");
    assert_eq!(tokens[0].token_type, TokenType::String { value: "a\nb".to_string() });
    assert_eq!(tokens[0].line_number, 0);
    assert_eq!(tokens[1].token_type, TokenType::Identifier { name: "x".to_string() });
    assert_eq!(tokens[1].line_number, 1);
    assert!(errors.is_empty());
}

#[test]
fn number_with_fraction() {
    let (tokens, errors) = scan("123.45");
    assert_eq!(tokens.len(), 2);
    assert_eq!(
        tokens[0].token_type,
        TokenType::Number {
            value: Decimal { integer_digits: "123".to_string(), fraction_digits: "45".to_string() }
        }
    );
    assert_eq!(number_value(&tokens[0].token_type), 123.45);
    assert_eq!(tokens[0].lexeme, "123.45");
    assert!(errors.is_empty());
}

#[test]
fn number_then_trailing_dot() {
    let (tokens, errors) = scan("123.");
    assert_eq!(tokens.len(), 3);
    assert_eq!(number_value(&tokens[0].token_type), 123.0);
    assert_eq!(tokens[0].lexeme, "123");
    assert_eq!(tokens[1].token_type, TokenType::Dot);
    assert_eq!(tokens[1].lexeme, ".");
    assert!(errors.is_empty());
}

#[test]
fn number_dot_identifier() {
    let (tokens, _) = scan("1.x");
    assert_eq!(
        types(&tokens),
        vec![
            TokenType::Number {
                value: Decimal { integer_digits: "1".to_string(), fraction_digits: String::new() }
            },
            TokenType::Dot,
            TokenType::Identifier { name: "x".to_string() },
            TokenType::Eof
        ]
    );
}

#[test]
fn number_with_two_points() {
    let (tokens, _) = scan("1.2.3");
    assert_eq!(number_value(&tokens[0].token_type), 1.2);
    assert_eq!(tokens[1].token_type, TokenType::Dot);
    assert_eq!(number_value(&tokens[2].token_type), 3.0);
}

#[test]
fn for_is_a_keyword() {
    let (tokens, _) = scan("for");
    assert_eq!(types(&tokens), vec![TokenType::For, TokenType::Eof]);
    assert_eq!(tokens[0].lexeme, "for");
}

#[test]
fn forge_is_an_identifier() {
    let (tokens, _) = scan("forge");
    assert_eq!(tokens[0].token_type, TokenType::Identifier { name: "forge".to_string() });
    assert_eq!(tokens[0].lexeme, "forge");
}

#[test]
fn all_keywords() {
    let (tokens, errors) = scan(
        "and class else false fun for if null or print return super this true var while",
    );
    assert_eq!(
        types(&tokens),
        vec![
            TokenType::And,
            TokenType::Class,
            TokenType::Else,
            TokenType::False,
            TokenType::Fun,
            TokenType::For,
            TokenType::If,
            TokenType::Null,
            TokenType::Or,
            TokenType::Print,
            TokenType::Return,
            TokenType::Super,
            TokenType::This,
            TokenType::True,
            TokenType::Var,
            TokenType::While,
            TokenType::Eof
        ]
    );
    assert!(errors.is_empty());
}

#[test]
fn keywords_are_case_sensitive() {
    let (tokens, _) = scan("For nil _if if2");
    assert_eq!(
        types(&tokens),
        vec![
            TokenType::Identifier { name: "For".to_string() },
            TokenType::Identifier { name: "nil".to_string() },
            TokenType::Identifier { name: "_if".to_string() },
            TokenType::Identifier { name: "if2".to_string() },
            TokenType::Eof
        ]
    );
}

#[test]
fn unexpected_character_is_skipped() {
    let (tokens, errors) = scan("@(");
    assert_eq!(types(&tokens), vec![TokenType::LeftParentheses, TokenType::Eof]);
    assert_eq!(descriptions(&errors), vec![("Unexpected character".to_string(), 0)]);
}

#[test]
fn all_errors_are_collected_in_order() {
    let (tokens, errors) = scan("#\n a $ b\n\"x");
    assert_eq!(
        types(&tokens),
        vec![
            TokenType::Identifier { name: "a".to_string() },
            TokenType::Identifier { name: "b".to_string() },
            TokenType::Eof
        ]
    );
    assert_eq!(
        descriptions(&errors),
        vec![
            ("Unexpected character".to_string(), 0),
            ("Unexpected character".to_string(), 1),
            ("Unterminated string".to_string(), 2)
        ]
    );
}

#[test]
fn non_ascii_letter_is_unexpected() {
    let (tokens, errors) = scan("é");
    assert_eq!(types(&tokens), vec![TokenType::Eof]);
    assert_eq!(descriptions(&errors), vec![("Unexpected character".to_string(), 0)]);
}

#[test]
fn lines_are_counted_from_zero() {
    let (tokens, _) = scan("a\r\n\tb\n  c");
    let lines: Vec<usize> = tokens.iter().map(|t| t.line_number).collect();
    assert_eq!(lines, vec![0, 1, 2, 2]);
}

#[test]
fn statement_tokens() {
    let (tokens, errors) = scan("var total = price * 2.5;");
    let lexemes: Vec<&str> = tokens.iter().map(|t| t.lexeme.as_str()).collect();
    assert_eq!(lexemes, vec!["var", "total", "=", "price", "*", "2.5", ";", ""]);
    assert_eq!(number_value(&tokens[5].token_type), 2.5);
    assert!(errors.is_empty());
}

#[test]
fn scanning_twice_gives_the_same_result() {
    for source in ["var x = \"s\";\n// c\n1.5 @ x != y", "\"open", "#$%", ""] {
        let first = scan(source);
        let second = scan(source);
        assert_eq!(first.0, second.0);
        assert_eq!(descriptions(&first.1), descriptions(&second.1));
    }
}

#[test]
fn try_keyword_from_str_finds_keywords() {
    assert_eq!(TokenType::try_keyword_from_str("while"), Ok(TokenType::While));
    assert_eq!(TokenType::try_keyword_from_str("null"), Ok(TokenType::Null));
    assert_eq!(TokenType::try_keyword_from_str("whilst"), Err("whilst"));
    assert_eq!(TokenType::try_keyword_from_str(""), Err(""));
}

#[test]
fn try_from_char_classifies_one_character() {
    assert_eq!(TokenType::try_from_char('{'), Some(TokenType::LeftBrace));
    assert_eq!(TokenType::try_from_char('>'), Some(TokenType::Greater));
    assert_eq!(TokenType::try_from_char('a'), None);
    assert_eq!(TokenType::try_from_char('/'), None);
}

#[test]
fn syntax_error_message() {
    let e = FeroxError::SyntaxError {
        error_description: "Unexpected character".to_string(),
        line_number: 120,
    };
    assert_eq!(e.message(), "At line 120: Unexpected character");
    let zero = FeroxError::SyntaxError { error_description: "x".to_string(), line_number: 0 };
    assert_eq!(zero.message(), "At line 0: x");
}

#[test]
fn invalid_path_message() {
    let e = FeroxError::InvalidFilePathError { file_path: "a/b.fx".to_string() };
    assert_eq!(e.message(), "The path 'a/b.fx' does not point to a valid script file.");
}

#[test]
fn cursor_helpers() {
    let mut scanner = Scanner::new("ab=");
    assert_eq!(scanner.peek(), Some('a'));
    assert_eq!(scanner.peek_next(), Some('b'));
    assert!(!scanner.match_current('b'));
    assert_eq!(scanner.advance(), Some('a'));
    assert!(scanner.match_current('b'));
    assert_eq!(scanner.peek(), Some('='));
    assert_eq!(scanner.peek_next(), None);
    assert!(!scanner.is_at_end());
    assert_eq!(scanner.advance(), Some('='));
    assert!(scanner.is_at_end());
    assert_eq!(scanner.advance(), None);
    assert_eq!(scanner.peek(), None);
}

#[test]
fn character_classes() {
    let scanner = Scanner::default();
    assert!(scanner.is_digit('7'));
    assert!(!scanner.is_digit('a'));
    assert!(scanner.is_alpha('_'));
    assert!(scanner.is_alpha('Z'));
    assert!(!scanner.is_alpha('5'));
    assert!(scanner.is_alpha_numeric('5'));
    assert!(!scanner.is_alpha_numeric('-'));
}

#[test]
fn default_scanner_scans_nothing() {
    let mut scanner = Scanner::default();
    let tokens = scanner.scan_tokens().unwrap();
    assert_eq!(types(&tokens), vec![TokenType::Eof]);
    assert!(scanner.errors.is_empty());
}

#[test]
fn try_from_char_trait() {
    assert_eq!(TokenType::try_from('('), Ok(TokenType::LeftParentheses));
    assert_eq!(TokenType::try_from('/'), Err(()));
    assert_eq!(TokenType::try_from('@'), Err(()));
    assert_eq!(TokenType::try_from('"'), Err(()));
}

#[test]
fn errors_getter_returns_collected_errors() {
    let mut scanner = Scanner::new("@ #");
    scanner.scan_tokens().unwrap();
    assert_eq!(descriptions(scanner.errors()), descriptions(&scanner.errors));
    assert_eq!(scanner.errors().len(), 2);
}

#[test]
fn one_step_over_a_comment_stops_at_its_newline() {
    let mut scanner = Scanner::new("// c\n(");
    let mut tokens = Vec::new();
    scanner.scan_token(&mut tokens);
    assert!(tokens.is_empty());
    assert!(scanner.errors().is_empty());
    assert_eq!(scanner.peek(), Some('\n'));
}

#[test]
fn one_step_over_an_operator_takes_the_equal_sign() {
    let mut scanner = Scanner::new("<=1");
    assert_eq!(scanner.advance(), Some('<'));
    assert_eq!(scanner.single_or_double_character_token_type('<'), Some(TokenType::LessEqual));
    assert_eq!(scanner.peek(), Some('1'));
    let mut alone = Scanner::new("<1");
    assert_eq!(alone.advance(), Some('<'));
    assert_eq!(alone.single_or_double_character_token_type('<'), Some(TokenType::Less));
    assert_eq!(alone.peek(), Some('1'));
}
