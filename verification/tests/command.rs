use shellcore::command::{parse_tokens, Command, SyntaxError};
use shellcore::tokenizer::{tokenize, Token};

fn command(words: &[&str]) -> Command {
    Command { words: words.iter().map(|w| w.to_string()).collect() }
}

fn parse_line(line: &str) -> Result<Vec<Command>, SyntaxError> {
    parse_tokens(&tokenize(line).unwrap())
}

#[test]
fn three_stages_parse_to_three_commands() {
    assert_eq!(
        parse_line("a | b | c"),
        Ok(vec![command(&["a"]), command(&["b"]), command(&["c"])])
    );
}

#[test]
fn trailing_pipe_is_a_syntax_error() {
    assert_eq!(parse_line("a |"), Err(SyntaxError {}));
}

#[test]
fn leading_pipe_is_a_syntax_error() {
    assert_eq!(parse_line("| a"), Err(SyntaxError {}));
}

#[test]
fn adjacent_pipes_are_a_syntax_error() {
    assert_eq!(parse_line("a || b"), Err(SyntaxError {}));
    assert_eq!(parse_line("a | | b"), Err(SyntaxError {}));
}

#[test]
fn lone_pipe_is_a_syntax_error() {
    assert_eq!(parse_line("|"), Err(SyntaxError {}));
}

#[test]
fn no_tokens_are_a_syntax_error() {
    assert_eq!(parse_tokens(&vec![]), Err(SyntaxError {}));
}

#[test]
fn unexpanded_variable_is_a_syntax_error() {
    let tokens = vec![Token::Word("echo".to_string()), Token::Variable("HOME".to_string())];
    assert_eq!(parse_tokens(&tokens), Err(SyntaxError {}));
}

#[test]
fn words_of_a_stage_stay_in_order() {
    assert_eq!(
        parse_line("grep -n 'a b' file | sort -r|head"),
        Ok(vec![
            command(&["grep", "-n", "a b", "file"]),
            command(&["sort", "-r"]),
            command(&["head"]),
        ])
    );
}

#[test]
fn single_command_is_a_pipeline_of_one() {
    assert_eq!(parse_line("ls"), Ok(vec![command(&["ls"])]));
}

#[test]
fn words_are_not_read_again() {
    let tokens = vec![Token::Word("a | b".to_string()), Token::Word("$X".to_string())];
    assert_eq!(parse_tokens(&tokens), Ok(vec![command(&["a | b", "$X"])]));
}

#[test]
fn empty_word_names_a_stage() {
    assert_eq!(parse_line("'' | a"), Ok(vec![command(&[""]), command(&["a"])]));
}

#[test]
fn every_parsed_stage_has_a_word() {
    for line in ["a", "a b | c", "x|y|z w", "'' ''"] {
        let pipeline = parse_line(line).unwrap();
        assert!(!pipeline.is_empty());
        assert!(pipeline.iter().all(|c| !c.words.is_empty()));
    }
}
