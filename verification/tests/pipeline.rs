use shellcore::builtins::Dispatch;
use shellcore::cmdoutput::CmdOutput;
use shellcore::command::Command;
use shellcore::eval::{
    execute, run_command, ExecutionError, PipelineRun, SpawnOutcome, StageEvent, StageRequest,
    Step,
};
use shellcore::state::{ShellError, ShellState};
use shellcore::tokenizer::TokenizationError;

fn pipeline(stages: &[&[&str]]) -> Vec<Command> {
    stages
        .iter()
        .map(|words| Command { words: words.iter().map(|w| w.to_string()).collect() })
        .collect()
}

fn output(stdout: &str, stderr: &str, code: i32) -> CmdOutput {
    CmdOutput::from_parts(stdout.as_bytes().to_vec(), stderr.as_bytes().to_vec(), code)
}

fn request(name: &str, args: &[&str], input: Option<CmdOutput>) -> StageRequest {
    StageRequest {
        name: name.to_string(),
        args: args.iter().map(|a| a.to_string()).collect(),
        input,
    }
}

fn execution(status: i32, details: &str) -> ShellError {
    ShellError::Execution(ExecutionError::new(status, details.to_string()))
}

/// A host for the tests: the builtin `emit` writes its arguments, the builtin
/// `fail` reports an error, the program `cat` copies its input, the program
/// `exit` exits with its argument, and `broken` cannot be fed. The log names
/// every call, in order.
struct Host {
    log: Vec<String>,
}

impl Host {
    fn builtin(
        &mut self,
        state: &mut ShellState<()>,
        request: &StageRequest,
    ) -> Result<Dispatch, ShellError> {
        self.log.push(format!("builtin {}", request.name));
        match request.name.as_str() {
            "emit" => Ok(Dispatch::Handled(output(&request.args.join(" "), "", 0))),
            "quit" => {
                state.running = false;
                Ok(Dispatch::Handled(CmdOutput::new()))
            }
            "fail" => Err(execution(42, "fail: refused")),
            _ => Ok(Dispatch::NotMatched),
        }
    }

    fn program(&mut self, request: &StageRequest) -> SpawnOutcome {
        self.log.push(format!("program {}", request.name));
        match request.name.as_str() {
            "cat" => {
                let stdin = request.input.as_ref().map(|i| i.stdout.clone()).unwrap_or_default();
                SpawnOutcome::Completed(CmdOutput::from_parts(stdin, vec![], 0))
            }
            "emit" => SpawnOutcome::Completed(output("from the program", "", 0)),
            "exit" => SpawnOutcome::Completed(output(
                &format!("exit {}\n", request.args[0]),
                "",
                request.args[0].parse().unwrap(),
            )),
            "broken" => SpawnOutcome::Failed("broken: broken pipe".to_string()),
            _ => SpawnOutcome::NotFound,
        }
    }

    fn run(
        &mut self,
        state: &mut ShellState<()>,
        command: &Vec<Command>,
    ) -> Result<CmdOutput, ShellError> {
        let mut step = run_command(state, command, PipelineRun::new(), StageEvent::Begin);
        loop {
            step = match step {
                Step::Dispatch(run, request) => {
                    let answer = self.builtin(state, &request);
                    run_command(state, command, run, StageEvent::Builtin(answer))
                }
                Step::Spawn(run, request) => {
                    let outcome = self.program(&request);
                    run_command(state, command, run, StageEvent::Spawned(outcome))
                }
                Step::Done(result) => return result,
            }
        }
    }
}

#[test]
fn first_stage_is_asked_of_the_builtins_without_input() {
    let mut state = ShellState::new(());
    let command = pipeline(&[&["ls", "-l", "dir"], &["wc"]]);
    let step = run_command(&mut state, &command, PipelineRun::new(), StageEvent::Begin);
    assert_eq!(step, Step::Dispatch(PipelineRun::new(), request("ls", &["-l", "dir"], None)));
    assert_eq!(state.status, 0);
}

#[test]
fn unmatched_builtin_sends_the_same_request_to_a_program() {
    let mut state = ShellState::new(());
    let command = pipeline(&[&["ls", "-l"]]);
    let step = run_command(
        &mut state,
        &command,
        PipelineRun::new(),
        StageEvent::Builtin(Ok(Dispatch::NotMatched)),
    );
    assert_eq!(step, Step::Spawn(PipelineRun::new(), request("ls", &["-l"], None)));
}

#[test]
fn next_stage_reads_the_output_of_the_stage_before() {
    let mut state = ShellState::new(());
    let command = pipeline(&[&["a"], &["b", "x"], &["c"]]);
    let first = output("one", "e1", 0);
    let step = run_command(
        &mut state,
        &command,
        PipelineRun::new(),
        StageEvent::Spawned(SpawnOutcome::Completed(first.clone())),
    );
    let after_first =
        PipelineRun { stage: 1, output: first.clone(), previous: Some(first.clone()) };
    assert_eq!(step, Step::Dispatch(after_first.clone(), request("b", &["x"], Some(first))));

    let second = output("two", "e2", 4);
    let step = run_command(
        &mut state,
        &command,
        after_first,
        StageEvent::Builtin(Ok(Dispatch::Handled(second.clone()))),
    );
    let after_second = PipelineRun {
        stage: 2,
        output: output("onetwo", "e1e2", 4),
        previous: Some(second.clone()),
    };
    assert_eq!(step, Step::Dispatch(after_second, request("c", &[], Some(second))));
    assert_eq!(state.status, 0);
}

#[test]
fn copying_stage_captures_exactly_what_the_first_wrote() {
    let mut state = ShellState::new(());
    let mut host = Host { log: vec![] };
    let bytes = "some bytes\n\0\u{7f}";
    let result = host.run(&mut state, &pipeline(&[&["emit", bytes], &["cat"]])).unwrap();
    assert_eq!(result.stdout, format!("{bytes}{bytes}").into_bytes());
    assert_eq!(host.log, vec!["builtin emit", "builtin cat", "program cat"]);
}

#[test]
fn builtin_wins_over_a_program_of_the_same_name() {
    let mut state = ShellState::new(());
    let mut host = Host { log: vec![] };
    let result = host.run(&mut state, &pipeline(&[&["emit", "from", "the", "builtin"]]));
    assert_eq!(result, Ok(output("from the builtin", "", 0)));
    assert_eq!(host.log, vec!["builtin emit"]);
}

#[test]
fn builtin_may_change_the_session() {
    let mut state = ShellState::new(());
    let mut host = Host { log: vec![] };
    let result = host.run(&mut state, &pipeline(&[&["quit"]]));
    assert_eq!(result, Ok(CmdOutput::new()));
    assert!(!state.running);
    assert_eq!(host.log, vec!["builtin quit"]);
}

#[test]
fn unknown_command_is_status_127() {
    let mut state = ShellState::new(());
    let mut host = Host { log: vec![] };
    let result = host.run(&mut state, &pipeline(&[&["nosuchcommand", "arg"]]));
    assert_eq!(result, Err(execution(127, "nosuchcommand: command not found")));
    match result {
        Err(ShellError::Execution(e)) => {
            assert_eq!(e.status, 127);
            assert!(e.details.contains("nosuchcommand"));
        }
        other => panic!("unexpected: {:?}", other),
    }
    assert_eq!(state.status, 127);
    assert_eq!(host.log, vec!["builtin nosuchcommand", "program nosuchcommand"]);
}

#[test]
fn last_stage_decides_the_exit_code() {
    let mut state = ShellState::new(());
    let mut host = Host { log: vec![] };
    let result = host.run(&mut state, &pipeline(&[&["exit", "0"], &["exit", "5"]])).unwrap();
    assert_eq!(result.code, 5);
    assert_eq!(result.stdout, b"exit 0\nexit 5\n".to_vec());
    assert_eq!(state.status, 5);
}

#[test]
fn failing_first_stage_does_not_stop_the_pipeline() {
    let mut state = ShellState::new(());
    let mut host = Host { log: vec![] };
    let result = host.run(&mut state, &pipeline(&[&["exit", "3"], &["exit", "0"]])).unwrap();
    assert_eq!(result.code, 0);
    assert_eq!(result.stdout, b"exit 3\nexit 0\n".to_vec());
    assert_eq!(state.status, 0);
}

#[test]
fn status_shows_in_the_next_line() {
    let mut state = ShellState::new(());
    let mut host = Host { log: vec![] };
    host.run(&mut state, &pipeline(&[&["exit", "3"]])).unwrap();
    assert_eq!(state.status, 3);
    let env = shellcore::environment::Environment::new();
    let mut tokens = shellcore::tokenizer::tokenize("$?").unwrap();
    shellcore::eval::expand_tokens(&mut state, &env, &mut tokens);
    assert_eq!(tokens, vec![shellcore::tokenizer::Token::Word("3".to_string())]);
    assert_eq!(shellcore::tokenizer::tokenize("3").unwrap(), tokens);
}

#[test]
fn builtin_error_halts_the_pipeline() {
    let mut state = ShellState::new(());
    let mut host = Host { log: vec![] };
    let result = host.run(&mut state, &pipeline(&[&["emit", "a"], &["fail"], &["cat"]]));
    assert_eq!(result, Err(execution(42, "fail: refused")));
    assert_eq!(host.log, vec!["builtin emit", "builtin fail"]);
    assert_eq!(state.status, 42);
}

#[test]
fn builtin_error_is_handed_on_as_it_is() {
    let mut state = ShellState::new(());
    state.status = 8;
    let command = pipeline(&[&["a"], &["b"]]);
    let error = ShellError::Tokenization(TokenizationError::UnterminatedQuote);
    let step = run_command(
        &mut state,
        &command,
        PipelineRun::new(),
        StageEvent::Builtin(Err(error.clone())),
    );
    assert_eq!(step, Step::Done(Err(error)));
    assert_eq!(state.status, 8);
}

#[test]
fn missing_program_halts_the_pipeline() {
    let mut state = ShellState::new(());
    let mut host = Host { log: vec![] };
    let result = host.run(&mut state, &pipeline(&[&["missing"], &["cat"]]));
    assert_eq!(result, Err(execution(127, "missing: command not found")));
    assert_eq!(host.log, vec!["builtin missing", "program missing"]);
}

#[test]
fn failed_exchange_is_status_1() {
    let mut state = ShellState::new(());
    let mut host = Host { log: vec![] };
    let result = host.run(&mut state, &pipeline(&[&["emit", "x"], &["broken"], &["cat"]]));
    assert_eq!(result, Err(execution(1, "broken: broken pipe")));
    assert_eq!(state.status, 1);
    assert_eq!(host.log, vec!["builtin emit", "builtin broken", "program broken"]);
}

#[test]
fn pipeline_without_stages_is_over_at_once() {
    let mut state = ShellState::new(());
    state.status = 9;
    let step = run_command(&mut state, &vec![], PipelineRun::new(), StageEvent::Begin);
    assert_eq!(step, Step::Done(Ok(CmdOutput::new())));
    assert_eq!(state.status, 0);
}

#[test]
fn last_stage_ends_the_pipeline_with_the_merged_output() {
    let mut state = ShellState::new(());
    let command = pipeline(&[&["a"], &["b"]]);
    let run = PipelineRun {
        stage: 1,
        output: output("one", "", 0),
        previous: Some(output("one", "", 0)),
    };
    let step = run_command(
        &mut state,
        &command,
        run,
        StageEvent::Spawned(SpawnOutcome::Completed(output("two", "warn", 2))),
    );
    assert_eq!(step, Step::Done(Ok(output("onetwo", "warn", 2))));
    assert_eq!(state.status, 2);
}

#[test]
fn run_that_is_over_stays_over() {
    let mut state = ShellState::new(());
    let command = pipeline(&[&["a"]]);
    let run = PipelineRun { stage: 1, output: output("done", "", 6), previous: None };
    let step = run_command(
        &mut state,
        &command,
        run,
        StageEvent::Builtin(Ok(Dispatch::NotMatched)),
    );
    assert_eq!(step, Step::Done(Ok(output("done", "", 6))));
    assert_eq!(state.status, 6);
}

#[test]
fn run_command_changes_nothing_but_the_status() {
    let mut state = ShellState::new(77u32);
    state.running = false;
    state.stdout = b"o".to_vec();
    state.stderr = b"e".to_vec();
    let command = pipeline(&[&["a"]]);
    let step = run_command(
        &mut state,
        &command,
        PipelineRun::new(),
        StageEvent::Builtin(Ok(Dispatch::Handled(output("", "", 11)))),
    );
    assert_eq!(step, Step::Done(Ok(output("", "", 11))));
    assert_eq!(state.status, 11);
    assert!(!state.running);
    assert_eq!(state.config, 77);
    assert_eq!(state.stdout, b"o".to_vec());
    assert_eq!(state.stderr, b"e".to_vec());
}

#[test]
fn execute_hands_on_what_the_program_left() {
    let out = output("o", "e", 200);
    assert_eq!(execute("prog", SpawnOutcome::Completed(out.clone())), Ok(out));
}

#[test]
fn execute_names_the_command_that_was_not_found() {
    assert_eq!(
        execute("prog", SpawnOutcome::NotFound),
        Err(execution(127, "prog: command not found"))
    );
    assert_eq!(execute("", SpawnOutcome::NotFound), Err(execution(127, ": command not found")));
}

#[test]
fn execute_reports_a_failed_exchange() {
    assert_eq!(
        execute("prog", SpawnOutcome::Failed("write failed".to_string())),
        Err(execution(1, "write failed"))
    );
}
