use pab::repl::{interpret, respond, Action, Commands};
use pab::lexer::Lexer;
use pab::token::TokenType;

#[test]
fn commands_are_read_from_their_names() {
    assert_eq!(Commands::from_str(".exit"), Ok(Commands::Exit));
    assert_eq!(Commands::from_str(".help"), Ok(Commands::Help));
}

#[test]
fn other_words_are_answered_with_a_message() {
    assert_eq!(Commands::from_str("exit"), Err("Unknown command: exit".to_string()));
    assert_eq!(Commands::from_str(""), Err("Unknown command: ".to_string()));
    assert_eq!(Commands::from_str(".exit "), Err("Unknown command: .exit ".to_string()));
    assert_eq!(Commands::from_str(".Help"), Err("Unknown command: .Help".to_string()));
}

#[test]
fn a_line_that_names_a_command_runs_it() {
    assert_eq!(interpret(".exit\n"), Action::Run(Commands::Exit));
    assert_eq!(interpret("  .help \r\n"), Action::Run(Commands::Help));
    assert_eq!(interpret(".help"), Action::Run(Commands::Help));
}

#[test]
fn any_other_line_is_shown_as_tokens() {
    match interpret("let x = 5;\n") {
        Action::Show(tokens) => {
            let kinds: Vec<TokenType> = tokens.iter().map(|tok| tok.token_type).collect();
            assert_eq!(
                kinds,
                vec![
                    TokenType::Let,
                    TokenType::Ident,
                    TokenType::Assign,
                    TokenType::Int,
                    TokenType::Semicolon,
                ]
            );
        }
        Action::Run(_) => panic!(),
    }
    match interpret(".exit now\n") {
        Action::Show(tokens) => {
            let kinds: Vec<TokenType> = tokens.iter().map(|tok| tok.token_type).collect();
            assert_eq!(kinds, vec![TokenType::Float, TokenType::Ident, TokenType::Ident]);
        }
        Action::Run(_) => panic!(),
    }
    assert_eq!(interpret("\n"), Action::Show(vec![]));
}

#[test]
fn respond_decides_by_the_word_and_reads_the_line() {
    assert_eq!(respond(".exit", ".exit\n"), Action::Run(Commands::Exit));
    assert_eq!(respond(".help", "let x = 5;"), Action::Run(Commands::Help));
    match respond("x", "x = 1") {
        Action::Show(tokens) => {
            let kinds: Vec<TokenType> = tokens.iter().map(|tok| tok.token_type).collect();
            assert_eq!(kinds, vec![TokenType::Ident, TokenType::Assign, TokenType::Int]);
        }
        Action::Run(_) => panic!(),
    }
    assert_eq!(respond(" .exit", ".exit"), Action::Show(Lexer::new(".exit").tokenize()));
}
