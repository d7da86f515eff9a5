use lox_interp::keywords;
use lox_interp::scanner::{word_part, word_start, Scanner};
use lox_interp::token::{Error, Token, TokenType};

fn scan(source: &str) -> (Vec<Token>, Vec<Error>) {
    Scanner::new(source).scan_tokens()
}

fn kinds(source: &str) -> Vec<TokenType> {
    scan(source).0.iter().map(|t| t.token_type).collect()
}

fn number_literal(source: &str) -> String {
    let (tokens, errors) = scan(source);
    assert!(errors.is_empty());
    assert_eq!(tokens.len(), 2);
    assert_eq!(tokens[0].token_type, TokenType::Number);
    assert_eq!(tokens[0].lexeme, source);
    tokens[0].literal.clone().unwrap()
}

#[test]
fn integral_number_gains_a_fraction() {
    assert_eq!(number_literal("3"), "3.0");
    assert_eq!(number_literal("100"), "100.0");
    assert_eq!(number_literal("0"), "0.0");
}

#[test]
fn number_literals_are_normalized() {
    assert_eq!(number_literal("3.14"), "3.14");
    assert_eq!(number_literal("1.50"), "1.5");
    assert_eq!(number_literal("1.0"), "1.0");
    assert_eq!(number_literal("007"), "7.0");
    assert_eq!(number_literal("00.500"), "0.5");
    assert_eq!(number_literal("0.0"), "0.0");
}

#[test]
fn number_literals_agree_with_floating_point_text() {
    for source in ["3", "42", "3.14", "1.50", "0.25", "10.0", "123456.789", "000.125"] {
        let mut expected = source.parse::<f64>().unwrap().to_string();
        if !expected.contains('.') {
            expected.push_str(".0");
        }
        assert_eq!(number_literal(source), expected);
    }
}

#[test]
fn every_number_literal_holds_a_point() {
    let (tokens, _) = scan("1 2.5 300 0.001 12.");
    for t in tokens.iter().filter(|t| t.token_type == TokenType::Number) {
        assert!(t.literal.as_ref().unwrap().contains('.'));
    }
}

#[test]
fn a_point_without_digits_is_no_fraction() {
    assert_eq!(kinds("12."), vec![TokenType::Number, TokenType::Dot, TokenType::Eof]);
    assert_eq!(kinds(".5"), vec![TokenType::Dot, TokenType::Number, TokenType::Eof]);
    assert_eq!(
        kinds("1.2.3"),
        vec![TokenType::Number, TokenType::Dot, TokenType::Number, TokenType::Eof]
    );
}

#[test]
fn an_unknown_character_is_an_error_and_scanning_goes_on() {
    let (tokens, errors) = scan("@");
    assert_eq!(errors.len(), 1);
    assert_eq!(errors[0].message, "Unexpected character: @");
    assert_eq!(errors[0].line, 1);
    assert_eq!(tokens.len(), 1);
    assert_eq!(tokens[0].token_type, TokenType::Eof);
}

#[test]
fn all_errors_are_collected() {
    let (tokens, errors) = scan("1 @ 2\n# 3 $");
    assert_eq!(errors.len(), 3);
    assert_eq!(errors[0].line, 1);
    assert_eq!(errors[1].message, "Unexpected character: #");
    assert_eq!(errors[1].line, 2);
    assert_eq!(errors[2].to_string(), "[line 2] Error: Unexpected character: $");
    assert_eq!(
        tokens.iter().map(|t| t.token_type).collect::<Vec<_>>(),
        vec![TokenType::Number, TokenType::Number, TokenType::Number, TokenType::Eof]
    );
}

#[test]
fn an_unterminated_string_is_one_error_and_no_token() {
    let (tokens, errors) = scan("\"abc");
    assert_eq!(errors.len(), 1);
    assert_eq!(errors[0].message, "Unterminated string.");
    assert_eq!(errors[0].line, 1);
    assert!(tokens.iter().all(|t| t.token_type != TokenType::String));
    assert_eq!(tokens.len(), 1);
    assert_eq!(tokens[0].token_type, TokenType::Eof);
}

#[test]
fn a_string_holds_what_stands_between_the_quotes() {
    let (tokens, errors) = scan("\"hello world\"");
    assert!(errors.is_empty());
    assert_eq!(tokens[0].token_type, TokenType::String);
    assert_eq!(tokens[0].lexeme, "\"hello world\"");
    assert_eq!(tokens[0].literal.as_deref(), Some("hello world"));
}

#[test]
fn a_string_may_span_lines() {
    let (tokens, errors) = scan("\"a\nb\"\nx");
    assert!(errors.is_empty());
    assert_eq!(tokens[0].literal.as_deref(), Some("a\nb"));
    assert_eq!(tokens[0].line, 2);
    assert_eq!(tokens[1].token_type, TokenType::Identifier);
    assert_eq!(tokens[1].line, 3);
    assert_eq!(tokens[2].line, 3);
}

#[test]
fn a_string_may_hold_any_characters() {
    let (tokens, errors) = scan("\"héllo ✓\" é");
    assert!(errors.is_empty());
    assert_eq!(tokens[0].literal.as_deref(), Some("héllo ✓"));
    assert_eq!(tokens[1].token_type, TokenType::Identifier);
    assert_eq!(tokens[1].lexeme, "é");
}

#[test]
fn punctuation_and_operators() {
    assert_eq!(
        kinds("(){},.-+;*/ ! != = == < <= > >="),
        vec![
            TokenType::LeftParen,
            TokenType::RightParen,
            TokenType::LeftBrace,
            TokenType::RightBrace,
            TokenType::Comma,
            TokenType::Dot,
            TokenType::Minus,
            TokenType::Plus,
            TokenType::Semicolon,
            TokenType::Star,
            TokenType::Slash,
            TokenType::Bang,
            TokenType::BangEqual,
            TokenType::Equal,
            TokenType::EqualEqual,
            TokenType::Less,
            TokenType::LessEqual,
            TokenType::Greater,
            TokenType::GreaterEqual,
            TokenType::Eof,
        ]
    );
}

#[test]
fn two_character_operators_are_read_greedily() {
    assert_eq!(
        kinds("===!==>=<"),
        vec![
            TokenType::EqualEqual,
            TokenType::Equal,
            TokenType::BangEqual,
            TokenType::Equal,
            TokenType::GreaterEqual,
            TokenType::Less,
            TokenType::Eof,
        ]
    );
}

#[test]
fn comments_run_to_the_end_of_the_line() {
    let (tokens, errors) = scan("1 // two @ three\n4 / 5 // end");
    assert!(errors.is_empty());
    assert_eq!(
        tokens.iter().map(|t| t.token_type).collect::<Vec<_>>(),
        vec![
            TokenType::Number,
            TokenType::Number,
            TokenType::Slash,
            TokenType::Number,
            TokenType::Eof
        ]
    );
    assert_eq!(tokens[1].line, 2);
}

#[test]
fn newlines_count_lines() {
    let (tokens, _) = scan("a\n\nb\r\n\tc");
    assert_eq!(tokens.iter().map(|t| t.line).collect::<Vec<_>>(), vec![1, 3, 4, 4]);
}

#[test]
fn reserved_words_are_not_identifiers() {
    assert_eq!(
        kinds("and class else false for fun if nil or print return super this true var while"),
        vec![
            TokenType::And,
            TokenType::Class,
            TokenType::Else,
            TokenType::False,
            TokenType::For,
            TokenType::Fun,
            TokenType::If,
            TokenType::Nil,
            TokenType::Or,
            TokenType::Print,
            TokenType::Return,
            TokenType::Super,
            TokenType::This,
            TokenType::True,
            TokenType::Var,
            TokenType::While,
            TokenType::Eof,
        ]
    );
}

#[test]
fn identifiers() {
    let (tokens, errors) = scan("_a1 orchid variable x_y nil2");
    assert!(errors.is_empty());
    assert!(tokens[..5].iter().all(|t| t.token_type == TokenType::Identifier));
    assert_eq!(tokens[0].lexeme, "_a1");
    assert_eq!(tokens[1].lexeme, "orchid");
    assert_eq!(tokens[4].lexeme, "nil2");
    assert!(tokens[0].literal.is_none());
}

#[test]
fn the_keyword_table() {
    assert_eq!(keywords::map("while"), Some(TokenType::While));
    assert_eq!(keywords::map("fun"), Some(TokenType::Fun));
    assert_eq!(keywords::map("function"), None);
    assert_eq!(keywords::map(""), None);
    assert_eq!(keywords::map("While"), None);
}

#[test]
fn an_empty_text_is_one_token() {
    let (tokens, errors) = scan("");
    assert!(errors.is_empty());
    assert_eq!(tokens.len(), 1);
    assert_eq!(tokens[0].token_type, TokenType::Eof);
    assert_eq!(tokens[0].lexeme, "");
    assert_eq!(tokens[0].line, 1);
}

#[test]
fn the_last_token_is_the_only_end_of_file() {
    for source in ["", "1 + 2", "\"open", "@@@", "a\nb\n", "// only a comment"] {
        let (tokens, _) = scan(source);
        assert_eq!(tokens.last().unwrap().token_type, TokenType::Eof);
        assert_eq!(tokens.iter().filter(|t| t.token_type == TokenType::Eof).count(), 1);
    }
}

#[test]
fn tokens_are_listed_with_kind_lexeme_and_literal() {
    let (tokens, _) = scan("var x = 1.50; \"s\"");
    let lines: Vec<String> = tokens.iter().map(|t| t.to_string()).collect();
    assert_eq!(
        lines,
        vec![
            "VAR var null",
            "IDENTIFIER x null",
            "EQUAL = null",
            "NUMBER 1.50 1.5",
            "SEMICOLON ; null",
            "STRING \"s\" s",
            "EOF  null",
        ]
    );
}

#[test]
fn token_kinds_have_names() {
    assert_eq!(TokenType::LeftParen.to_string(), "LEFT_PAREN");
    assert_eq!(TokenType::GreaterEqual.to_string(), "GREATER_EQUAL");
    assert_eq!(TokenType::Identifier.to_string(), "IDENTIFIER");
    assert_eq!(TokenType::Eof.to_string(), "EOF");
}

#[test]
fn a_token_keeps_what_it_was_made_with() {
    let t = Token::new(TokenType::String, "\"a\"".to_string(), Some("a".to_string()), 3);
    assert_eq!(t.token_type, TokenType::String);
    assert_eq!(t.lexeme, "\"a\"");
    assert_eq!(t.literal.as_deref(), Some("a"));
    assert_eq!(t.line, 3);
}

#[test]
fn the_scanner_can_be_driven_token_by_token() {
    let mut s = Scanner::new("ab+");
    assert!(!s.is_at_end());
    assert_eq!(s.peek(), 'a');
    assert_eq!(s.peek_next(), 'b');
    s.scan_token();
    assert_eq!(s.peek(), '+');
    assert_eq!(s.peek_next(), '\n');
    assert!(!s.next_char_match('-'));
    assert!(s.next_char_match('+'));
    assert!(s.is_at_end());
    assert_eq!(s.peek(), '\n');
    assert_eq!(s.advance(), None);
    s.add_token(TokenType::Plus, None);
    let (tokens, errors) = s.scan_tokens();
    assert!(errors.is_empty());
    assert_eq!(tokens.len(), 3);
    assert_eq!(tokens[0].lexeme, "ab");
    assert_eq!(tokens[1].token_type, TokenType::Plus);
    assert_eq!(tokens[1].lexeme, "ab+");
    assert_eq!(tokens[2].token_type, TokenType::Eof);
}

#[test]
fn an_unknown_character_changes_nothing_but_the_errors() {
    let (with, errors) = scan("var a ? = 1;");
    let (without, none) = scan("var a  = 1;");
    assert_eq!(errors.len(), 1);
    assert_eq!(errors[0].message, "Unexpected character: ?");
    assert!(none.is_empty());
    assert_eq!(
        with.iter().map(|t| t.to_string()).collect::<Vec<_>>(),
        without.iter().map(|t| t.to_string()).collect::<Vec<_>>()
    );
}

#[test]
fn tokenize_scans_a_whole_text() {
    let (tokens, errors) = lox_interp::scanner::tokenize("print \"a\";");
    assert!(errors.is_empty());
    assert_eq!(
        tokens.iter().map(|t| t.token_type).collect::<Vec<_>>(),
        vec![TokenType::Print, TokenType::String, TokenType::Semicolon, TokenType::Eof]
    );
}

#[test]
fn number_literals_of_up_to_fifteen_digits_agree_with_floating_point_text() {
    let mut seed: u64 = 0x2545_f491_4f6c_dd1d;
    let mut next = |bound: u64| {
        seed ^= seed << 13;
        seed ^= seed >> 7;
        seed ^= seed << 17;
        seed % bound
    };
    for _ in 0..4000 {
        let digits = 1 + next(15) as usize;
        let mut significant = String::new();
        for i in 0..digits {
            let low = if i == 0 { 1 } else { 0 };
            significant.push(char::from(b'0' + (low + next(10 - low)) as u8));
        }
        let split = next(digits as u64 + 1) as usize;
        let mut source = String::new();
        for _ in 0..next(3) {
            source.push('0');
        }
        if split == 0 {
            source.push('0');
            source.push('.');
            for _ in 0..next(8) {
                source.push('0');
            }
            source.push_str(&significant);
        } else {
            source.push_str(&significant[..split]);
            if split == digits {
                for _ in 0..next(8) {
                    source.push('0');
                }
                if next(2) == 0 {
                    source.push_str(".0");
                }
            } else {
                source.push('.');
                source.push_str(&significant[split..]);
            }
        }
        if source.contains('.') {
            for _ in 0..next(3) {
                source.push('0');
            }
        }
        let mut expected = source.parse::<f64>().unwrap().to_string();
        if !expected.contains('.') {
            expected.push_str(".0");
        }
        assert_eq!(number_literal(&source), expected, "{}", source);
    }
}

#[test]
fn a_character_is_read_as_the_answer_about_it_says() {
    let mut s = Scanner::new("@");
    assert_eq!(s.advance(), Some('@'));
    s.scan_character('@', false);
    let (tokens, errors) = s.scan_tokens();
    assert_eq!(errors.len(), 1);
    assert_eq!(errors[0].message, "Unexpected character: @");
    assert_eq!(tokens.len(), 1);

    let mut s = Scanner::new("ab1 c");
    assert_eq!(s.advance(), Some('a'));
    s.scan_character('a', true);
    let (tokens, errors) = s.scan_tokens();
    assert!(errors.is_empty());
    assert_eq!(tokens[0].token_type, TokenType::Identifier);
    assert_eq!(tokens[0].lexeme, "ab1");
    assert_eq!(tokens[1].lexeme, "c");

    let mut s = Scanner::new("_x");
    assert_eq!(s.advance(), Some('_'));
    s.scan_character('_', false);
    let (tokens, _) = s.scan_tokens();
    assert_eq!(tokens[0].lexeme, "_x");
}

#[test]
fn identifiers_start_with_a_letter_or_an_underscore() {
    assert!(word_start('a', true));
    assert!(word_start('_', false));
    assert!(!word_start('1', false));
    assert!(!word_start('@', false));
    assert!(word_part('1', true));
    assert!(word_part('_', false));
    assert!(!word_part('-', false));
    assert_eq!(kinds("1a"), vec![TokenType::Number, TokenType::Identifier, TokenType::Eof]);
}

#[test]
fn at_the_end_of_the_text_nothing_is_read() {
    let mut s = Scanner::new("");
    s.scan_token();
    assert!(s.is_at_end());
    let (tokens, errors) = s.scan_tokens();
    assert!(errors.is_empty());
    assert_eq!(tokens.len(), 1);
    assert_eq!(tokens[0].token_type, TokenType::Eof);
}
