use pab::lexer::Lexer;
use pab::parser::Parser;

#[test]
fn parse_let_stmt() {
    let input = r#"
        let x = 5;
        let y = 10;
        let a = 838383;
        "#;

    let lexer = Lexer::new(input);
    let mut parser = Parser::new(lexer);

    let now = std::time::Instant::now();
    let p = parser.parse();
    println!("parsing took {:?}", now.elapsed());

    if !parser.errors.is_empty() {
        println!("parser has {} errors", parser.errors.len());
        for error in parser.errors {
            println!("parser error: {}", error);
        }
        panic!();
    }

    assert_eq!(p.statements.len(), 3);
}

#[test]
fn parse_mut_let_stmt() {
    let input = r#"
        let x = 3;
        let mut y = 5;
        y = 10;
        "#;
    let lexer = Lexer::new(input);
    let mut parser = Parser::new(lexer);

    let p = parser.parse();

    if !parser.errors.is_empty() {
        println!("parser has {} errors", parser.errors.len());
        for error in parser.errors {
            println!("parser error: {}", error);
        }
        panic!();
    }

    let mut stmts = p.statements.iter();
    let first_stmt = stmts.next().unwrap();
    let sec_stmt = stmts.next().unwrap();

    assert!(!first_stmt.is_mut());
    assert!(sec_stmt.is_mut());
}

use pab::ast::{Identifier, LetStatement, Program, Statement};
use pab::token::{Token, TokenType};

fn parse(input: &str) -> (Program, Vec<String>, usize) {
    let mut parser = Parser::new(Lexer::new(input));
    let program = parser.parse();
    (program, parser.errors, parser.token_count)
}

#[test]
fn three_bindings_give_three_statements_and_no_error() {
    let (program, errors, _) = parse("let x = 5; let y = 10; let a = 838383;");
    assert_eq!(program.statements.len(), 3);
    assert!(errors.is_empty());
    for statement in &program.statements {
        assert!(!statement.is_mut());
    }
}

#[test]
fn mut_marks_the_binding_and_a_bare_assignment_is_no_statement() {
    let (program, errors, _) = parse("let x = 3; let mut y = 5; y = 10;");
    assert!(errors.is_empty());
    assert_eq!(program.statements.len(), 2);
    assert!(!program.statements[0].is_mut());
    assert!(program.statements[1].is_mut());
}

#[test]
fn a_missing_name_is_recorded() {
    let (program, errors, _) = parse("let = 5;");
    assert!(program.statements.is_empty());
    assert!(!errors.is_empty());
    assert_eq!(errors, vec!["expected next token to be 'Ident', got '=' instead".to_string()]);
    assert!(errors[0].contains(&TokenType::Ident.to_string()));
    assert!(errors[0].contains(&TokenType::Assign.to_string()));
}

#[test]
fn a_missing_assign_is_recorded() {
    let (program, errors, _) = parse("let x 5;");
    assert!(program.statements.is_empty());
    assert_eq!(errors, vec!["expected next token to be '=', got 'Int' instead".to_string()]);
}

#[test]
fn a_missing_name_after_mut_is_recorded() {
    let (program, errors, _) = parse("let mut = 1;");
    assert!(program.statements.is_empty());
    assert_eq!(errors, vec!["expected next token to be 'Ident', got '=' instead".to_string()]);
}

#[test]
fn let_at_the_end_of_input_is_recorded() {
    let (program, errors, count) = parse("let");
    assert!(program.statements.is_empty());
    assert_eq!(errors, vec!["expected next token to be 'Ident', got 'EOF' instead".to_string()]);
    assert_eq!(count, 3);
}

#[test]
fn errors_come_in_the_order_of_the_source_and_parsing_goes_on() {
    let (program, errors, _) = parse("let = 1; let a 2; let b = 3; let mut 4;");
    assert_eq!(
        errors,
        vec![
            "expected next token to be 'Ident', got '=' instead".to_string(),
            "expected next token to be '=', got 'Int' instead".to_string(),
            "expected next token to be 'Ident', got 'Int' instead".to_string(),
        ]
    );
    assert_eq!(program.statements.len(), 1);
    match &program.statements[0] {
        Statement::Let(statement) => {
            assert_eq!((statement.name.start, statement.name.end), (22, 23));
            assert!(!statement.is_mut);
        }
    }
}

#[test]
fn the_token_after_an_abandoned_statement_starts_the_next() {
    let (program, errors, _) = parse("let let x = 1;");
    assert_eq!(errors, vec!["expected next token to be 'Ident', got 'let' instead".to_string()]);
    assert_eq!(program.statements.len(), 1);
}

#[test]
fn a_statement_keeps_its_tokens_and_the_span_of_its_name() {
    let input = "let x = 5;\nlet mut total = x;";
    let (program, errors, _) = parse(input);
    assert!(errors.is_empty());
    let name = Token { token_type: TokenType::Ident, start: 4, end: 5, line: 0 };
    let first = LetStatement {
        token: Token { token_type: TokenType::Let, start: 0, end: 3, line: 0 },
        name: Identifier { token: name, start: 4, end: 5 },
        is_mut: false,
    };
    let name = Token { token_type: TokenType::Ident, start: 19, end: 24, line: 1 };
    let second = LetStatement {
        token: Token { token_type: TokenType::Let, start: 11, end: 14, line: 1 },
        name: Identifier { token: name, start: 19, end: 24 },
        is_mut: true,
    };
    assert_eq!(
        program.statements,
        vec![Statement::Let(Box::new(first)), Statement::Let(Box::new(second))]
    );
    match &program.statements[1] {
        Statement::Let(statement) => {
            assert_eq!(&input[statement.name.start..statement.name.end], "total");
        }
    }
}

#[test]
fn the_right_hand_side_is_skipped_up_to_the_semicolon() {
    let (program, errors, _) = parse("let f = fn(a, b) { a + b } ; let g = f;");
    assert!(errors.is_empty());
    assert_eq!(program.statements.len(), 2);
    let (program, errors, _) = parse("let a = let b = 1; let c = 2;");
    assert!(errors.is_empty());
    assert_eq!(program.statements.len(), 2);
}

#[test]
fn a_binding_without_a_semicolon_ends_with_the_input() {
    let (program, errors, count) = parse("let x = 5");
    assert!(errors.is_empty());
    assert_eq!(program.statements.len(), 1);
    assert_eq!(count, 7);
    let (program, errors, _) = parse("let x =");
    assert!(errors.is_empty());
    assert_eq!(program.statements.len(), 1);
}

#[test]
fn other_leading_tokens_are_passed_over() {
    let (program, errors, count) = parse("x + 1; return 5; if (a) { b } @ 1.5");
    assert!(program.statements.is_empty());
    assert!(errors.is_empty());
    assert_eq!(count, 2 + 16);
}

#[test]
fn the_empty_source_gives_the_empty_program() {
    let (program, errors, count) = parse("");
    assert!(program.statements.is_empty());
    assert!(errors.is_empty());
    assert_eq!(count, 2);
    let (program, errors, count) = parse(" \n\t ");
    assert!(program.statements.is_empty());
    assert!(errors.is_empty());
    assert_eq!(count, 2);
}

#[test]
fn every_token_is_counted_once_and_two_are_read_ahead() {
    let (_, _, count) = parse("let x = 5; let y = 10; let a = 838383;");
    assert_eq!(count, 17);
    let (_, _, count) = parse("let x = 3; let mut y = 5; y = 10;");
    assert_eq!(count, 17);
    let parser = Parser::new(Lexer::new("let x = 5;"));
    assert_eq!(parser.token_count, 2);
    assert!(parser.errors.is_empty());
}

#[test]
fn parsing_again_at_the_end_changes_nothing() {
    let mut parser = Parser::new(Lexer::new("let x = 5; let = 1;"));
    let program = parser.parse();
    assert_eq!(program.statements.len(), 1);
    assert_eq!(parser.errors.len(), 1);
    let count = parser.token_count;
    let again = parser.parse();
    assert!(again.statements.is_empty());
    assert_eq!(parser.errors.len(), 1);
    assert_eq!(parser.token_count, count);
}

#[test]
fn a_parser_starts_where_its_tokenizer_stands() {
    let mut lexer = Lexer::new("let x = 1; let y = 2;");
    for _ in 0..5 {
        lexer.next_token();
    }
    let mut parser = Parser::new(lexer);
    let program = parser.parse();
    assert_eq!(program.statements.len(), 1);
    match &program.statements[0] {
        Statement::Let(statement) => {
            assert_eq!((statement.name.start, statement.name.end), (15, 16));
        }
    }
}

#[test]
fn a_nul_character_ends_the_program() {
    let (program, errors, _) = parse("let x = 1; \0 let y = 2;");
    assert!(errors.is_empty());
    assert_eq!(program.statements.len(), 1);
}

#[test]
fn builders_keep_their_arguments() {
    let token = Token::new(TokenType::Ident, 4, 5, 0);
    let name = Identifier::new(token, 4, 5);
    assert_eq!(name, Identifier { token, start: 4, end: 5 });
    let keyword = Token::new(TokenType::Let, 0, 3, 0);
    let statement = LetStatement::new(keyword, name, true);
    assert_eq!(statement.token, keyword);
    assert_eq!(statement.name, Identifier { token, start: 4, end: 5 });
    assert!(statement.is_mut);
    assert!(Statement::Let(Box::new(statement)).is_mut());
    assert!(Program::new().statements.is_empty());
    assert!(Program::default().statements.is_empty());
}

#[test]
fn a_nul_character_in_a_right_hand_side_is_passed_over() {
    let (program, errors, count) = parse("let x = 1 \0 ;");
    assert!(errors.is_empty());
    assert_eq!(program.statements.len(), 1);
    assert_eq!(count, 2 + 6);

    let (program, errors, count) = parse("let x = \0 let y = 2;");
    assert!(errors.is_empty());
    assert_eq!(program.statements.len(), 1);
    assert_eq!(count, 2 + 9);
    match &program.statements[0] {
        Statement::Let(statement) => {
            assert_eq!((statement.name.start, statement.name.end), (4, 5));
        }
    }

    let (program, errors, _) = parse("let x = \0 1; let y = 2;");
    assert!(errors.is_empty());
    assert_eq!(program.statements.len(), 2);
}

#[test]
fn a_right_hand_side_with_a_nul_character_and_no_semicolon_ends_with_the_source() {
    let (program, errors, count) = parse("let x = \0 y");
    assert!(errors.is_empty());
    assert_eq!(program.statements.len(), 1);
    assert_eq!(count, 2 + 6);

    let (program, errors, count) = parse("let x = \0\0");
    assert!(errors.is_empty());
    assert_eq!(program.statements.len(), 1);
    assert_eq!(count, 2 + 6);
}
