use pantera::parser::lexer::Lexer;
use pantera::parser::token::TokenType;
use rand::prelude::IndexedRandom;
use rand::rng;

struct Pair<K, V> {
    key: K,
    value: V,
}

fn let_statement(x: &str) -> String {
    format!("let {x};")
}

fn for_statement(x: &str) -> String {
    format!("for kw in {x}")
}

fn sum(x: &str) -> String {
    format!("{x} + 2")
}

fn grouped(x: &str) -> String {
    format!("({x})")
}

fn member(x: &str) -> String {
    format!("{x}.some")
}

fn negated(x: &str) -> String {
    format!("-{x}")
}

fn nested(x: &str) -> String {
    format!("if ( \n ( {x} ) )")
}

fn between(x: &str) -> String {
    format!("3 {x} 54;")
}

fn compared(x: &str) -> String {
    format!("if variable {x} true")
}

fn before_true(x: &str) -> String {
    format!("{x} true")
}

fn before_two(x: &str) -> String {
    format!("{x}2")
}

#[test]
fn works_fine() {
    let lexer = Lexer::new("fun main");
    let res = lexer.scan_tokens();
    if let Ok(toks) = res {
        assert_eq!(toks.len(), 3);
        assert_eq!(toks.get(0).unwrap().typ, TokenType::Fun);
        assert_eq!(toks.get(1).unwrap().typ, TokenType::Identifier("main".to_string()));
    } else {
        assert!(false);
    }
}

#[test]
fn can_lex_numbers() {
    let numbers = vec!["12", "1.2", "1.43", "4", "0", "0.13"];
    let not_numbers = vec!["12.a", "14a 2", "1-23", "-13"];
    for number in numbers {
        let lexer = Lexer::new(number);
        let tokens = lexer.scan_tokens().unwrap();
        assert_eq!(tokens.len(), 2);
    }

    for not_number in not_numbers {
        let lexer = Lexer::new(not_number);
        let tokens = lexer.scan_tokens().unwrap();
        assert_ne!(tokens.len(), 2);
    }
}

#[test]
fn can_lex_ids() {
    let ids = ["main", "a24", "test_2", "test_1_23_ae", "_smth", "SMTH"];

    let non_ids = ["1abc", "for", "-", "/", "*"];

    for id in ids {
        let lexer = Lexer::new(id);
        let tokens = lexer.scan_tokens().unwrap();
        assert_eq!(tokens.len(), 2);
        assert_eq!(tokens.get(0).unwrap().typ, TokenType::Identifier(id.to_string()));
    }

    for non_id in non_ids {
        let lexer = Lexer::new(non_id);
        let tokens = lexer.scan_tokens().unwrap();
        assert!(tokens.len() > 2 || !matches!(tokens.get(0).unwrap().typ, TokenType::Identifier(_)));
    }
}

#[test]
fn can_peek() {
    let mut lexer = Lexer::new("fun ");
    lexer.advance();
    assert_eq!(lexer.peek().unwrap(), 'u');
    lexer.advance();
    lexer.advance();
    assert_eq!(lexer.peek().unwrap(), ' ');
    lexer.advance();
    assert_eq!(lexer.peek(), None);
}

#[test]
fn can_advance() {
    let mut lexer = Lexer::new("fun ");
    lexer.advance();
    assert_eq!(lexer.current, 1);
    lexer.advance();
    lexer.advance();
    assert_eq!(lexer.current, 3);
}

#[test]
fn can_is_at_end() {
    let mut lexer = Lexer::new("fu");
    assert!(!lexer.is_at_end());
    lexer.advance();
    assert!(!lexer.is_at_end());
    lexer.advance();
    assert!(lexer.is_at_end());
}

#[test]
fn can_match_keyword() {
    let keywords = vec![
        Pair { key: "for", value: TokenType::For },
        Pair { key: "var", value: TokenType::Var },
        Pair { key: "const", value: TokenType::Const },
        Pair { key: "if", value: TokenType::If },
        Pair { key: "else", value: TokenType::Else },
        Pair { key: "fun", value: TokenType::Fun },
        Pair { key: "null", value: TokenType::Nil },
        Pair { key: "is", value: TokenType::Is },
        Pair { key: "not", value: TokenType::Not },
        Pair { key: "and", value: TokenType::And },
        Pair { key: "or", value: TokenType::Or },
        Pair { key: "print", value: TokenType::Print },
        Pair { key: "true", value: TokenType::True },
        Pair { key: "false", value: TokenType::False },
        Pair { key: "break", value: TokenType::Break },
        Pair { key: "return", value: TokenType::Return },
    ];

    let random_scenarios: [Pair<fn(&str) -> String, usize>; 7] = [
        Pair { key: let_statement, value: 1 },
        Pair { key: for_statement, value: 3 },
        Pair { key: sum, value: 0 },
        Pair { key: grouped, value: 1 },
        Pair { key: member, value: 0 },
        Pair { key: negated, value: 1 },
        Pair { key: nested, value: 3 },
    ];

    let mut rng = rng();

    for keyword in &keywords {
        let Some(scenario) = random_scenarios.choose(&mut rng) else { panic!("Cannot find scenarios") };
        let lexer = Lexer::new((scenario.key)(keyword.key).as_str());
        let Ok(tokens) = lexer.scan_tokens() else { panic!("Something really went wrong") };
        assert_eq!(tokens.get(scenario.value).unwrap().typ, keyword.value);
    }

    // if a kw has a suffix alphanumeric char it's an identifier
    for kw in &keywords {
        let Some(scenario) = random_scenarios.choose(&mut rng) else { panic!("Cannot find scenarios") };
        let lexer = Lexer::new((scenario.key)(format!("{}2", kw.key).as_str()).as_str());
        let Ok(tokens) = lexer.scan_tokens() else { panic!("Something really went wrong") };
        assert!(matches!(tokens.get(scenario.value).unwrap().typ, TokenType::Identifier(_)));
    }

    // if a kw has a prefix char it's an identifier
    for kw in &keywords {
        let Some(scenario) = random_scenarios.choose(&mut rng) else { panic!("Cannot find scenarios") };
        let lexer = Lexer::new((scenario.key)(format!("x{}", kw.key).as_str()).as_str());
        let Ok(tokens) = lexer.scan_tokens() else { panic!("Something really went wrong") };
        assert!(matches!(tokens.get(scenario.value).unwrap().typ, TokenType::Identifier(_)));
    }

    // if a kw has both prefix and suffix char it's an identifier
    for kw in &keywords {
        let Some(scenario) = random_scenarios.choose(&mut rng) else { panic!("Cannot find scenarios") };
        let lexer = Lexer::new((scenario.key)(format!("x{}1", kw.key).as_str()).as_str());
        let Ok(tokens) = lexer.scan_tokens() else { panic!("Something really went wrong") };
        assert!(matches!(tokens.get(scenario.value).unwrap().typ, TokenType::Identifier(_)));
    }
}

#[test]
fn can_match_operator() {
    let operators = vec![
        Pair { key: "+", value: TokenType::Plus },
        Pair { key: "-", value: TokenType::Minus },
        Pair { key: "/", value: TokenType::Slash },
        Pair { key: "*", value: TokenType::Star },
        Pair { key: "^", value: TokenType::Pow },
        Pair { key: ">", value: TokenType::Grater },
        Pair { key: ">=", value: TokenType::GraterEqual },
        Pair { key: "<", value: TokenType::Less },
        Pair { key: "<=", value: TokenType::LessEqual },
        Pair { key: "=", value: TokenType::Equal },
    ];

    let random_scenarios: [Pair<fn(&str) -> String, usize>; 7] = [
        Pair { key: between, value: 1 },
        Pair { key: compared, value: 2 },
        Pair { key: before_true, value: 0 },
        Pair { key: grouped, value: 1 },
        Pair { key: before_two, value: 0 },
        Pair { key: negated, value: 1 },
        Pair { key: nested, value: 3 },
    ];

    let mut rng = rng();

    for operator in &operators {
        let Some(scenario) = random_scenarios.choose(&mut rng) else { panic!("Cannot find scenarios") };
        let lexer = Lexer::new((scenario.key)(operator.key).as_str());
        let Ok(tokens) = lexer.scan_tokens() else { panic!("Something really went wrong") };
        assert_eq!(tokens.get(scenario.value).unwrap().typ, operator.value);
    }
}

#[test]
fn can_match_semicolon() {
    let lexer = Lexer::new("var x;");
    let Ok(tokens) = lexer.scan_tokens() else { panic!("Something really went wrong") };
    assert_eq!(tokens.get(2).unwrap().typ, TokenType::Semicolon);
}

#[test]
fn can_match_dot() {
    let lexer = Lexer::new("x.property");
    let Ok(tokens) = lexer.scan_tokens() else { panic!("Something really went wrong") };
    assert_eq!(tokens.get(1).unwrap().typ, TokenType::Dot);

    let lexer = Lexer::new("var x = 3.13;");
    let Ok(tokens) = lexer.scan_tokens() else { panic!("Something really went wrong") };
    for token in tokens {
        assert_ne!(token.typ, TokenType::Dot);
    }
}

#[test]
fn can_match_comma() {
    let lexer = Lexer::new("x(1, 2, 3)");
    let Ok(tokens) = lexer.scan_tokens() else { panic!("Something really went wrong") };
    assert_eq!(tokens.get(3).unwrap().typ, TokenType::Comma);
    assert_eq!(tokens.get(5).unwrap().typ, TokenType::Comma);
}

#[test]
fn can_match_braces() {
    let lexer = Lexer::new("x((3+2)*4)");
    let Ok(tokens) = lexer.scan_tokens() else { panic!("Something really went wrong") };
    assert_eq!(tokens.get(1).unwrap().typ, TokenType::LeftBrace);
    assert_eq!(tokens.get(2).unwrap().typ, TokenType::LeftBrace);

    assert_eq!(tokens.get(6).unwrap().typ, TokenType::RightBrace);
    assert_eq!(tokens.get(9).unwrap().typ, TokenType::RightBrace);
}

#[test]
fn can_match_parens() {
    let lexer = Lexer::new("if trouble {\nrun()\n}");
    let Ok(tokens) = lexer.scan_tokens() else { panic!("Something really went wrong") };
    assert_eq!(tokens.get(2).unwrap().typ, TokenType::LeftParen);
    assert_eq!(tokens.get(6).unwrap().typ, TokenType::RightParen)
}

#[test]
fn lexes_the_tokens_of_the_newer_syntax() {
    let tokens = Lexer::new("loop reverse 1..4 as i { a's b = [1]; x != y; x == y; k: 1 }")
        .scan_tokens()
        .unwrap();
    let kinds: Vec<TokenType> = tokens.into_iter().map(|t| t.typ).collect();
    assert_eq!(
        kinds,
        vec![
            TokenType::Loop,
            TokenType::Reverse,
            TokenType::Number("1".to_string()),
            TokenType::DoubleDot,
            TokenType::Number("4".to_string()),
            TokenType::As,
            TokenType::Identifier("i".to_string()),
            TokenType::LeftParen,
            TokenType::Identifier("a".to_string()),
            TokenType::Possesive,
            TokenType::Identifier("b".to_string()),
            TokenType::Equal,
            TokenType::LeftSquareBracket,
            TokenType::Number("1".to_string()),
            TokenType::RightSquareBracket,
            TokenType::Semicolon,
            TokenType::Identifier("x".to_string()),
            TokenType::Is,
            TokenType::Not,
            TokenType::Identifier("y".to_string()),
            TokenType::Semicolon,
            TokenType::Identifier("x".to_string()),
            TokenType::Is,
            TokenType::Identifier("y".to_string()),
            TokenType::Semicolon,
            TokenType::Identifier("k".to_string()),
            TokenType::Colon,
            TokenType::Number("1".to_string()),
            TokenType::RightParen,
            TokenType::Eof,
        ]
    );
}

#[test]
fn a_word_between_round_brackets_is_a_part_of_a_name() {
    let tokens = Lexer::new("add(3)and(4) and (5)").scan_tokens().unwrap();
    assert_eq!(tokens.get(4).unwrap().typ, TokenType::Identifier("and".to_string()));
    assert_eq!(tokens.get(8).unwrap().typ, TokenType::And);
}

#[test]
fn lexer_errors_carry_their_line() {
    let error = Lexer::new("x;\n\"abc\ndef").scan_tokens().unwrap_err();
    assert_eq!(error.message, "Unterminated string.");
    assert_eq!(error.line, 3);
    assert_eq!(error.get_message(), "Parser Error: Unterminated string.");
    let error = Lexer::new("x;\n\n#").scan_tokens().unwrap_err();
    assert_eq!(error.message, "Unexpected character.");
    assert_eq!(error.line, 3);
}

#[test]
fn strings_and_lines_are_counted() {
    let tokens = Lexer::new("\"a\nb\" x").scan_tokens().unwrap();
    assert_eq!(tokens.get(0).unwrap().typ, TokenType::String("a\nb".to_string()));
    assert_eq!(tokens.get(0).unwrap().line, 2);
    assert_eq!(tokens.get(1).unwrap().line, 2);
}
