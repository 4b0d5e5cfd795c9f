use interpreter::interpreter::report_line;
use interpreter::interpreter::ErrorHandler;
use interpreter::lexer::Lexer;
use interpreter::token::{Token, TokenType};

fn scan(source: &str) -> (Vec<Token>, bool, Vec<String>) {
    let mut lexer = Lexer::new(source.as_bytes().to_vec());
    let mut handler = ErrorHandler::new();
    lexer.scan_tokens(&mut handler);
    let messages = handler.diagnostics.iter().map(|d| d.message.clone()).collect();
    (lexer.tokens, handler.error, messages)
}

fn kinds(tokens: &[Token]) -> Vec<TokenType> {
    tokens.iter().map(|t| t.t_type).collect()
}

#[test]
fn one_plus_two() {
    let (tokens, flag, _) = scan("1 + 2");
    assert_eq!(
        kinds(&tokens),
        vec![TokenType::Num, TokenType::Plus, TokenType::Num, TokenType::Eof]
    );
    assert_eq!(tokens[0].lexeme, b"1".to_vec());
    assert_eq!(tokens[0].literal, Some(b"1".to_vec()));
    assert_eq!(tokens[2].lexeme, b"2".to_vec());
    assert!(!flag);
}

#[test]
fn line_comment_then_number() {
    let (tokens, flag, _) = scan("// comment\n42");
    assert_eq!(kinds(&tokens), vec![TokenType::Num, TokenType::Eof]);
    assert_eq!(tokens[0].lexeme, b"42".to_vec());
    assert_eq!(tokens[0].line, 2);
    assert!(!flag);
}

#[test]
fn unterminated_string() {
    let (tokens, flag, messages) = scan("\"abc");
    assert_eq!(kinds(&tokens), vec![TokenType::Eof]);
    assert!(flag);
    assert_eq!(messages, vec!["Unterminated string".to_string()]);
}

#[test]
fn unexpected_character() {
    let (tokens, flag, messages) = scan("@");
    assert_eq!(kinds(&tokens), vec![TokenType::Eof]);
    assert!(flag);
    assert_eq!(messages, vec!["Unexpected character: @".to_string()]);
}

#[test]
fn number_with_trailing_dot() {
    let (tokens, flag, _) = scan("3.");
    assert_eq!(kinds(&tokens), vec![TokenType::Num, TokenType::Dot, TokenType::Eof]);
    assert_eq!(tokens[0].lexeme, b"3".to_vec());
    assert!(!flag);
}

#[test]
fn keyword_is_not_identifier_prefix() {
    let (tokens, flag, _) = scan("if structx");
    assert_eq!(kinds(&tokens), vec![TokenType::If, TokenType::Id, TokenType::Eof]);
    assert_eq!(tokens[1].lexeme, b"structx".to_vec());
    assert_eq!(tokens[1].literal, Some(b"structx".to_vec()));
    assert!(!flag);
}

#[test]
fn whitespace_and_comments_scan_to_eof_alone() {
    let (tokens, flag, _) = scan("  // note\n/* block\nstill */ \n ");
    assert_eq!(kinds(&tokens), vec![TokenType::Eof]);
    assert!(!flag);
}

#[test]
fn empty_input() {
    let (tokens, flag, _) = scan("");
    assert_eq!(kinds(&tokens), vec![TokenType::Eof]);
    assert_eq!(tokens[0].lexeme, Vec::<u8>::new());
    assert_eq!(tokens[0].literal, None);
    assert_eq!(tokens[0].line, 1);
    assert_eq!(tokens[0].start, 0);
    assert_eq!(tokens[0].end, 0);
    assert!(!flag);
}

#[test]
fn lexemes_are_buffer_slices_with_increasing_starts() {
    let source = "if (alpha) { beta = 1.25; } // end";
    let (tokens, _, _) = scan(source);
    let buffer = source.as_bytes();
    for t in tokens.iter().take(tokens.len() - 1) {
        assert!(t.start < t.end);
        assert_eq!(t.lexeme, buffer[t.start..t.end].to_vec());
    }
    for pair in tokens.windows(2) {
        assert!(pair[0].start <= pair[1].start);
    }
}

#[test]
fn line_counts_newlines_consumed() {
    let (tokens, _, _) = scan("\n\n7");
    assert_eq!(kinds(&tokens), vec![TokenType::Num, TokenType::Eof]);
    assert_eq!(tokens[0].line, 3);
}

#[test]
fn string_literal_strips_quotes() {
    let (tokens, flag, _) = scan("\"abc\" x");
    assert_eq!(kinds(&tokens), vec![TokenType::Str, TokenType::Id, TokenType::Eof]);
    assert_eq!(tokens[0].lexeme, b"\"abc\"".to_vec());
    assert_eq!(tokens[0].literal, Some(b"abc".to_vec()));
    assert!(!flag);
}

#[test]
fn string_with_embedded_newline() {
    let (tokens, flag, _) = scan("\"a\nb\" x");
    assert_eq!(kinds(&tokens), vec![TokenType::Str, TokenType::Id, TokenType::Eof]);
    assert_eq!(tokens[0].literal, Some(b"a\nb".to_vec()));
    assert_eq!(tokens[0].line, 2);
    assert_eq!(tokens[1].line, 2);
    assert!(!flag);
}

#[test]
fn operators_one_and_two_characters() {
    let (tokens, flag, _) = scan("! != = == < <= > >= ^ - * /");
    assert_eq!(
        kinds(&tokens),
        vec![
            TokenType::Ex,
            TokenType::ExEq,
            TokenType::Eq,
            TokenType::EqEq,
            TokenType::Ls,
            TokenType::LsEq,
            TokenType::Gr,
            TokenType::GrEq,
            TokenType::Caret,
            TokenType::Minus,
            TokenType::Star,
            TokenType::Slash,
            TokenType::Eof,
        ]
    );
    assert_eq!(tokens[1].lexeme, b"!=".to_vec());
    assert_eq!(tokens[1].end - tokens[1].start, 2);
    assert!(!flag);
}

#[test]
fn punctuation_kinds() {
    let (tokens, flag, _) = scan("()[]{},.;");
    assert_eq!(
        kinds(&tokens),
        vec![
            TokenType::LeftParen,
            TokenType::RightParen,
            TokenType::LeftSq,
            TokenType::RightSq,
            TokenType::LeftCurly,
            TokenType::RightCurly,
            TokenType::Comma,
            TokenType::Dot,
            TokenType::Semicolon,
            TokenType::Eof,
        ]
    );
    assert!(!flag);
}

#[test]
fn all_keywords() {
    let source = "and struct dimension unit for if or while print return self true false";
    let (tokens, flag, _) = scan(source);
    assert_eq!(
        kinds(&tokens),
        vec![
            TokenType::And,
            TokenType::Struct,
            TokenType::Dimension,
            TokenType::Unit,
            TokenType::For,
            TokenType::If,
            TokenType::Or,
            TokenType::While,
            TokenType::Print,
            TokenType::Return,
            TokenType::Slf,
            TokenType::True,
            TokenType::False,
            TokenType::Eof,
        ]
    );
    for t in tokens.iter().take(tokens.len() - 1) {
        assert_eq!(t.literal, None);
    }
    assert!(!flag);
}

#[test]
fn keywords_are_case_sensitive() {
    let (tokens, _, _) = scan("True IF self");
    assert_eq!(
        kinds(&tokens),
        vec![TokenType::Id, TokenType::Id, TokenType::Slf, TokenType::Eof]
    );
}

#[test]
fn fractional_number() {
    let (tokens, _, _) = scan("12.34");
    assert_eq!(kinds(&tokens), vec![TokenType::Num, TokenType::Eof]);
    assert_eq!(tokens[0].lexeme, b"12.34".to_vec());
    assert_eq!(tokens[0].literal, Some(b"12.34".to_vec()));
    assert_eq!(tokens[0].start, 0);
    assert_eq!(tokens[0].end, 5);
}

#[test]
fn block_comment_counts_lines() {
    let (tokens, flag, _) = scan("/* a\nb */9");
    assert_eq!(kinds(&tokens), vec![TokenType::Num, TokenType::Eof]);
    assert_eq!(tokens[0].line, 2);
    assert!(!flag);
}

#[test]
fn unterminated_block_comment_is_silent() {
    let (tokens, flag, _) = scan("/* open 1 + 2");
    assert_eq!(kinds(&tokens), vec![TokenType::Eof]);
    assert!(!flag);
}

#[test]
fn block_comments_do_not_nest() {
    let (tokens, flag, _) = scan("/* outer /* inner */ 5");
    assert_eq!(kinds(&tokens), vec![TokenType::Num, TokenType::Eof]);
    assert_eq!(tokens[0].lexeme, b"5".to_vec());
    assert!(!flag);
}

#[test]
fn errors_recover_and_scanning_continues() {
    let (tokens, flag, messages) = scan("1 # 2");
    assert_eq!(kinds(&tokens), vec![TokenType::Num, TokenType::Num, TokenType::Eof]);
    assert!(flag);
    assert_eq!(messages, vec!["Unexpected character: #".to_string()]);
}

#[test]
fn rescan_after_reset_is_identical() {
    let source = "print \"x\" @";
    let mut handler = ErrorHandler::new();
    let mut first = Lexer::new(source.as_bytes().to_vec());
    first.scan_tokens(&mut handler);
    let first_flag = handler.error;
    handler.reset();
    assert!(!handler.error);
    let mut second = Lexer::new(source.as_bytes().to_vec());
    second.scan_tokens(&mut handler);
    assert_eq!(first_flag, handler.error);
    assert_eq!(first.tokens.len(), second.tokens.len());
    for (a, b) in first.tokens.iter().zip(second.tokens.iter()) {
        assert_eq!(a.t_type, b.t_type);
        assert_eq!(a.lexeme, b.lexeme);
        assert_eq!(a.literal, b.literal);
        assert_eq!(a.line, b.line);
        assert_eq!(a.start, b.start);
        assert_eq!(a.end, b.end);
    }
}

#[test]
fn token_to_string_shows_fields() {
    let (tokens, _, _) = scan("42");
    assert_eq!(tokens[0].to_string(), "Num 42 42 1 0 2".to_string());
    assert_eq!(tokens[1].to_string(), "Eof  1 2 2".to_string());
}

#[test]
fn token_new_stores_fields() {
    let t = Token::new(TokenType::Id, b"abc".to_vec(), Some(b"abc".to_vec()), 3, 10, 13);
    assert_eq!(t.t_type, TokenType::Id);
    assert_eq!(t.lexeme, b"abc".to_vec());
    assert_eq!(t.literal, Some(b"abc".to_vec()));
    assert_eq!(t.line, 3);
    assert_eq!(t.start, 10);
    assert_eq!(t.end, 13);
}

#[test]
fn error_handler_records_line_numbers() {
    let (_, flag, _) = scan("\n\n@");
    assert!(flag);
    let mut lexer = Lexer::new(b"\n\n@".to_vec());
    let mut handler = ErrorHandler::new();
    lexer.scan_tokens(&mut handler);
    assert_eq!(handler.diagnostics.len(), 1);
    assert_eq!(handler.diagnostics[0].line, 3);
}

#[test]
fn identifier_may_contain_digits() {
    let (tokens, _, _) = scan("a1b2");
    assert_eq!(kinds(&tokens), vec![TokenType::Id, TokenType::Eof]);
    assert_eq!(tokens[0].lexeme, b"a1b2".to_vec());
}

#[test]
fn lone_slash_is_a_token() {
    let (tokens, flag, _) = scan("/");
    assert_eq!(kinds(&tokens), vec![TokenType::Slash, TokenType::Eof]);
    assert!(!flag);
}

#[test]
fn unterminated_string_error_line_counts_interior_newlines() {
    let mut lexer = Lexer::new(b"\"a\nb".to_vec());
    let mut handler = ErrorHandler::new();
    lexer.scan_tokens(&mut handler);
    assert!(handler.error);
    assert_eq!(handler.diagnostics.len(), 1);
    assert_eq!(handler.diagnostics[0].line, 2);
    assert_eq!(handler.diagnostics[0].message, "Unterminated string".to_string());
}

#[test]
fn double_dot_after_number() {
    let (tokens, _, _) = scan("3..5");
    assert_eq!(
        kinds(&tokens),
        vec![TokenType::Num, TokenType::Dot, TokenType::Dot, TokenType::Num, TokenType::Eof]
    );
}

#[test]
fn several_errors_accumulate_in_order() {
    let (tokens, flag, messages) = scan("@ #");
    assert_eq!(kinds(&tokens), vec![TokenType::Eof]);
    assert!(flag);
    assert_eq!(
        messages,
        vec![
            "Unexpected character: @".to_string(),
            "Unexpected character: #".to_string(),
        ]
    );
}

#[test]
fn report_line_has_the_fixed_format() {
    assert_eq!(
        report_line(1, "", "Unterminated string"),
        "[line 1] Error : Unterminated string".to_string()
    );
    assert_eq!(
        report_line(42, "", "Unexpected character: @"),
        "[line 42] Error : Unexpected character: @".to_string()
    );
}

#[test]
fn fresh_lexer_state() {
    let lexer = Lexer::new(b"abc".to_vec());
    assert!(lexer.tokens.is_empty());
    assert_eq!(lexer.pos, 0);
    assert_eq!(lexer.start, 0);
    assert_eq!(lexer.line, 1);
}
