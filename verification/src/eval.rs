//! Evaluation of a line: expansion, and the decisions that drive a pipeline
//! from stage to stage.
//!
//! Running a program and calling a builtin are the host's work. The library
//! decides: [`run_command`] takes what the host reports of the stage at hand
//! and answers with what is to be done next.

use vstd::prelude::*;
use crate::builtins::{Dispatch, DispatchView};
use crate::cmdoutput::{view_opt, CmdOutput, CmdOutputView};
use crate::command::{parse_result, parse_tokens, stages_named, Command};
use crate::environment::{lookup, Environment};
use crate::state::{ShellError, ShellErrorView, ShellState};
use crate::text::{decimal, decimal_text, is_decimal_char, lemma_decimal_text_chars};
use crate::tokenizer::{
    is_blank_line, is_plain, is_variable_name, lemma_blank_line_has_no_tokens,
    lemma_plain_text_is_one_word, lemma_reference_is_one_variable, tokenize, tokens_of, Token,
    TokenView, TokenizationError,
};

verus! {

/// Status reported for a program that could not be started.
pub const NOT_FOUND_STATUS: i32 = 127;

/// Status reported for every other failure of the shell itself.
pub const FAILURE_STATUS: i32 = 1;

/// A failure at run time, with the status that the shell reports for it.
#[derive(Debug, Clone, PartialEq, Eq)]
pub struct ExecutionError {
    pub status: i32,
    pub details: String,
}

/// Mathematical model of an [`ExecutionError`].
pub struct ExecutionErrorView {
    pub status: int,
    pub details: Seq<char>,
}

impl View for ExecutionError {
    type V = ExecutionErrorView;

    open spec fn view(&self) -> ExecutionErrorView {
        ExecutionErrorView { status: self.status as int, details: self.details@ }
    }
}

impl ExecutionError {
    /// An error with the given status and message.
    pub fn new(code: i32, msg: String) -> (err: ExecutionError)
        ensures
            err@ == (ExecutionErrorView { status: code as int, details: msg@ }),
    {
        ExecutionError { status: code, details: msg }
    }
}

/// What a reference to `name` stands for: the decimal text of the session's
/// status for `?`, else the value bound to the name, and where none is
/// bound, the reference as it was written.
pub open spec fn expansion(
    status: int,
    env: Seq<(Seq<char>, Seq<char>)>,
    name: Seq<char>,
) -> Seq<char> {
    if name == seq!['?'] {
        decimal_text(status)
    } else {
        match lookup(env, name) {
            Some(value) => value,
            None => seq!['$'] + name,
        }
    }
}

/// A variable reference becomes the word that it stands for; every other
/// token stays.
pub open spec fn expand_token(
    status: int,
    env: Seq<(Seq<char>, Seq<char>)>,
    token: TokenView,
) -> TokenView {
    match token {
        TokenView::Variable(name) => TokenView::Word(expansion(status, env, name)),
        _ => token,
    }
}

/// The tokens with every variable reference expanded, each in its place.
pub open spec fn expanded(
    status: int,
    env: Seq<(Seq<char>, Seq<char>)>,
    tokens: Seq<TokenView>,
) -> Seq<TokenView> {
    tokens.map_values(|token: TokenView| expand_token(status, env, token))
}

/// Expansion keeps every token in its place: as many tokens come out as
/// went in, words and pipes come out as they were, and no variable
/// reference is left.
pub proof fn lemma_expansion_keeps_places(
    status: int,
    env: Seq<(Seq<char>, Seq<char>)>,
    tokens: Seq<TokenView>,
)
    ensures
        expanded(status, env, tokens).len() == tokens.len(),
        forall|i: int|
            0 <= i < tokens.len() ==> !((#[trigger] expanded(status, env, tokens)[i]) is Variable),
        forall|i: int|
            0 <= i < tokens.len() && !(tokens[i] is Variable) ==> (#[trigger] expanded(
                status,
                env,
                tokens,
            )[i]) == tokens[i],
{
}

/// The text that a reference to `var_name` stands for. `?` gives the
/// session's status in decimal. Any other name gives its value in `env`, and
/// where it has none, `$` and the name: a reference that cannot be resolved
/// stays visible. Neither the session nor the environment changes.
pub fn expand_variable<C>(state: &mut ShellState<C>, env: &Environment, var_name: &str) -> (text:
    String)
    ensures
        text@ == expansion(old(state).status as int, env@, var_name@),
        *final(state) == *old(state),
{
    let name = String::from_str(var_name);
    let status_name = String::from_str("?");
    proof {
        reveal_strlit("?");
        reveal_strlit("$");
        assert("?"@ =~= seq!['?']);
        assert("$"@ =~= seq!['$']);
    }
    if name == status_name {
        decimal(state.status)
    } else {
        match env.get(&name) {
            Some(value) => value,
            None => {
                let mut text = String::from_str("$");
                text.append(var_name);
                text
            },
        }
    }
}

/// Rewrites every variable reference among `tokens` to the word that it
/// stands for, in place: no token is added, removed or moved, and no
/// reference is left. Neither the session nor the environment changes.
pub fn expand_tokens<C>(state: &mut ShellState<C>, env: &Environment, tokens: &mut Vec<Token>)
    ensures
        final(tokens).deep_view() == expanded(
            old(state).status as int,
            env@,
            old(tokens).deep_view(),
        ),
        *final(state) == *old(state),
{
    let ghost written = tokens.deep_view();
    let ghost status = state.status as int;
    let mut i: usize = 0;
    while i < tokens.len()
        invariant
            i <= tokens.len(),
            tokens.len() == written.len(),
            status == state.status,
            *state == *old(state),
            forall|k: int| 0 <= k < i ==> (#[trigger] tokens[k])@ == expand_token(status, env@, written[k]),
            forall|k: int| i <= k < tokens.len() ==> (#[trigger] tokens[k])@ == written[k],
        decreases tokens.len() - i,
    {
        let word = match &tokens[i] {
            Token::Variable(name) => Some(expand_variable(state, env, name.as_str())),
            _ => None,
        };
        if let Some(text) = word {
            tokens.set(i, Token::Word(text));
        }
        i += 1;
    }
    assert(tokens.deep_view() =~= expanded(status, env@, written));
}

/// What became of the attempt to run an external program.
#[derive(Debug, Clone, PartialEq, Eq)]
pub enum SpawnOutcome {
    /// The program ran to its end; this is what it wrote and how it exited.
    Completed(CmdOutput),
    /// No program of that name could be started.
    NotFound,
    /// The program was started, but feeding it or collecting its output failed.
    Failed(String),
}

/// Mathematical model of a [`SpawnOutcome`].
pub enum SpawnOutcomeView {
    Completed(CmdOutputView),
    NotFound,
    Failed(Seq<char>),
}

impl View for SpawnOutcome {
    type V = SpawnOutcomeView;

    open spec fn view(&self) -> SpawnOutcomeView {
        match *self {
            SpawnOutcome::Completed(out) => SpawnOutcomeView::Completed(out@),
            SpawnOutcome::NotFound => SpawnOutcomeView::NotFound,
            SpawnOutcome::Failed(msg) => SpawnOutcomeView::Failed(msg@),
        }
    }
}

/// View of the result of a stage or of a whole pipeline.
pub open spec fn view_outcome(r: Result<CmdOutput, ShellError>) -> Result<
    CmdOutputView,
    ShellErrorView,
> {
    match r {
        Ok(out) => Ok(out@),
        Err(e) => Err(e@),
    }
}

/// Message of the error for a program that could not be started.
pub open spec fn not_found_message(command: Seq<char>) -> Seq<char> {
    command + ": command not found"@
}

/// What a stage that was handed to an external program comes to.
pub open spec fn execute_result(command: Seq<char>, spawned: SpawnOutcomeView) -> Result<
    CmdOutputView,
    ShellErrorView,
> {
    match spawned {
        SpawnOutcomeView::Completed(out) => Ok(out),
        SpawnOutcomeView::NotFound => Err(
            ShellErrorView::Execution(
                ExecutionErrorView {
                    status: NOT_FOUND_STATUS as int,
                    details: not_found_message(command),
                },
            ),
        ),
        SpawnOutcomeView::Failed(msg) => Err(
            ShellErrorView::Execution(
                ExecutionErrorView { status: FAILURE_STATUS as int, details: msg },
            ),
        ),
    }
}

/// Turns the outcome of running the external program `command` into the
/// result of its stage: the captured output, status 127 with a message that
/// names the command where it could not be started, status 1 where the
/// exchange with it failed.
pub fn execute(command: &str, spawned: SpawnOutcome) -> (r: Result<CmdOutput, ShellError>)
    ensures
        view_outcome(r) == execute_result(command@, spawned@),
{
    match spawned {
        SpawnOutcome::Completed(out) => Ok(out),
        SpawnOutcome::NotFound => {
            let mut msg = String::from_str(command);
            msg.append(": command not found");
            Err(ShellError::Execution(ExecutionError::new(NOT_FOUND_STATUS, msg)))
        },
        SpawnOutcome::Failed(msg) => Err(
            ShellError::Execution(ExecutionError::new(FAILURE_STATUS, msg)),
        ),
    }
}

/// What the host is asked to run for one stage.
#[derive(Debug, Clone, PartialEq, Eq)]
pub struct StageRequest {
    /// First word of the stage: the name of the builtin or program.
    pub name: String,
    /// The other words of the stage, in order.
    pub args: Vec<String>,
    /// Output of the stage before, absent for the first stage.
    pub input: Option<CmdOutput>,
}

/// Mathematical model of a [`StageRequest`].
pub struct StageRequestView {
    pub name: Seq<char>,
    pub args: Seq<Seq<char>>,
    pub input: Option<CmdOutputView>,
}

impl View for StageRequest {
    type V = StageRequestView;

    open spec fn view(&self) -> StageRequestView {
        StageRequestView {
            name: self.name@,
            args: self.args.deep_view(),
            input: view_opt(self.input),
        }
    }
}

/// How far a pipeline has come.
#[derive(Debug, Clone, PartialEq, Eq)]
pub struct PipelineRun {
    /// Index of the stage at hand: every stage before it has completed.
    pub stage: usize,
    /// Outputs of the completed stages, merged in stage order.
    pub output: CmdOutput,
    /// Output of the stage completed last, absent before the first.
    pub previous: Option<CmdOutput>,
}

/// Mathematical model of a [`PipelineRun`].
pub struct PipelineRunView {
    pub stage: nat,
    pub output: CmdOutputView,
    pub previous: Option<CmdOutputView>,
}

impl View for PipelineRun {
    type V = PipelineRunView;

    open spec fn view(&self) -> PipelineRunView {
        PipelineRunView {
            stage: self.stage as nat,
            output: self.output@,
            previous: view_opt(self.previous),
        }
    }
}

impl PipelineRunView {
    /// The run of a pipeline of which no stage has run yet.
    pub open spec fn start() -> PipelineRunView {
        PipelineRunView { stage: 0, output: CmdOutputView::empty(), previous: None }
    }

    /// The run after the stage at hand has completed with `out`.
    pub open spec fn completed(self, out: CmdOutputView) -> PipelineRunView {
        PipelineRunView {
            stage: self.stage + 1,
            output: self.output.merge(out),
            previous: Some(out),
        }
    }
}

impl PipelineRun {
    /// The run of a pipeline of which no stage has run yet.
    pub fn new() -> (run: PipelineRun)
        ensures
            run@ == PipelineRunView::start(),
    {
        PipelineRun { stage: 0, output: CmdOutput::new(), previous: None }
    }
}

/// What the host reports to [`run_command`].
#[derive(Debug, PartialEq, Eq)]
pub enum StageEvent {
    /// Nothing yet: the host asks what the stage at hand needs.
    Begin,
    /// The table of builtins was asked for the stage at hand and gave this.
    Builtin(Result<Dispatch, ShellError>),
    /// The external program of the stage at hand was run, with this outcome.
    Spawned(SpawnOutcome),
}

/// Mathematical model of a [`StageEvent`].
pub enum StageEventView {
    Begin,
    Builtin(Result<DispatchView, ShellErrorView>),
    Spawned(SpawnOutcomeView),
}

impl View for StageEvent {
    type V = StageEventView;

    open spec fn view(&self) -> StageEventView {
        match *self {
            StageEvent::Begin => StageEventView::Begin,
            StageEvent::Builtin(Ok(d)) => StageEventView::Builtin(Ok(d@)),
            StageEvent::Builtin(Err(e)) => StageEventView::Builtin(Err(e@)),
            StageEvent::Spawned(o) => StageEventView::Spawned(o@),
        }
    }
}

/// What [`run_command`] answers.
#[derive(Debug, PartialEq, Eq)]
pub enum Step {
    /// Ask the table of builtins for the request, and report with
    /// [`StageEvent::Builtin`].
    Dispatch(PipelineRun, StageRequest),
    /// Run the request as an external program, and report with
    /// [`StageEvent::Spawned`].
    Spawn(PipelineRun, StageRequest),
    /// The pipeline is over, with this result.
    Done(Result<CmdOutput, ShellError>),
}

/// Mathematical model of a [`Step`].
pub enum StepView {
    Dispatch(PipelineRunView, StageRequestView),
    Spawn(PipelineRunView, StageRequestView),
    Done(Result<CmdOutputView, ShellErrorView>),
}

impl View for Step {
    type V = StepView;

    open spec fn view(&self) -> StepView {
        match *self {
            Step::Dispatch(run, request) => StepView::Dispatch(run@, request@),
            Step::Spawn(run, request) => StepView::Spawn(run@, request@),
            Step::Done(r) => StepView::Done(view_outcome(r)),
        }
    }
}

/// The request for the stage at hand: its first word, its other words, and
/// for input the output of the stage before it.
pub open spec fn stage_request(
    pipeline: Seq<Seq<Seq<char>>>,
    run: PipelineRunView,
) -> StageRequestView {
    StageRequestView {
        name: pipeline[run.stage as int][0],
        args: pipeline[run.stage as int].skip(1),
        input: run.previous,
    }
}

/// The step that opens the stage at hand, or ends the pipeline with the
/// merged output where no stage is left.
pub open spec fn enter_stage(pipeline: Seq<Seq<Seq<char>>>, run: PipelineRunView) -> StepView {
    if run.stage >= pipeline.len() {
        StepView::Done(Ok(run.output))
    } else {
        StepView::Dispatch(run, stage_request(pipeline, run))
    }
}

/// The decision of the executor. For the stage at hand:
/// the table of builtins is asked first; where it handled the command, its
/// output is merged and the next stage is entered; where it has no such
/// builtin, the external program is asked for; the outcome of that program is
/// merged likewise, or ends the pipeline; an error of a builtin ends the
/// pipeline at once.
pub open spec fn next_step(
    pipeline: Seq<Seq<Seq<char>>>,
    run: PipelineRunView,
    event: StageEventView,
) -> StepView {
    if run.stage >= pipeline.len() {
        StepView::Done(Ok(run.output))
    } else {
        match event {
            StageEventView::Begin => enter_stage(pipeline, run),
            StageEventView::Builtin(Ok(DispatchView::Handled(out))) => enter_stage(
                pipeline,
                run.completed(out),
            ),
            StageEventView::Builtin(Ok(DispatchView::NotMatched)) => StepView::Spawn(
                run,
                stage_request(pipeline, run),
            ),
            StageEventView::Builtin(Err(e)) => StepView::Done(Err(e)),
            StageEventView::Spawned(spawned) => match execute_result(
                pipeline[run.stage as int][0],
                spawned,
            ) {
                Ok(out) => enter_stage(pipeline, run.completed(out)),
                Err(e) => StepView::Done(Err(e)),
            },
        }
    }
}

/// The session's status once `step` has been taken: the exit code of a
/// pipeline that ran to its end, the status of the failure that stopped it,
/// and the status as it was while the pipeline is under way.
pub open spec fn status_after(status: int, step: StepView) -> int {
    match step {
        StepView::Done(Ok(out)) => out.code,
        StepView::Done(Err(ShellErrorView::Execution(e))) => e.status,
        _ => status,
    }
}

/// The words of a stage but the first.
fn arguments(words: &Vec<String>) -> (args: Vec<String>)
    requires
        words.len() >= 1,
    ensures
        args.deep_view() == words.deep_view().skip(1),
{
    let mut args: Vec<String> = Vec::new();
    let mut i: usize = 1;
    while i < words.len()
        invariant
            1 <= i <= words.len(),
            args.len() == i - 1,
            forall|k: int| 0 <= k < args.len() ==> (#[trigger] args[k])@ == words[k + 1]@,
        decreases words.len() - i,
    {
        args.push(words[i].clone());
        i += 1;
    }
    assert(args.deep_view() =~= words.deep_view().skip(1));
    args
}

/// Builds the request for the stage at hand.
fn request_for(command: &Vec<Command>, run: &PipelineRun) -> (request: StageRequest)
    requires
        stages_named(command.deep_view()),
        run.stage < command.len(),
    ensures
        request@ == stage_request(command.deep_view(), run@),
{
    let stage = &command[run.stage];
    assert(command.deep_view()[run.stage as int] == stage.words.deep_view());
    let input = match &run.previous {
        Some(out) => Some(out.clone()),
        None => None,
    };
    StageRequest { name: stage.words[0].clone(), args: arguments(&stage.words), input }
}

/// Opens the stage at hand, or ends the pipeline where no stage is left.
fn enter<C>(state: &mut ShellState<C>, command: &Vec<Command>, run: PipelineRun) -> (step: Step)
    requires
        stages_named(command.deep_view()),
    ensures
        step@ == enter_stage(command.deep_view(), run@),
        final(state).status == status_after(old(state).status as int, step@),
        final(state).keeps_all_but_status(old(state)),
{
    if run.stage >= command.len() {
        state.status = run.output.code;
        Step::Done(Ok(run.output))
    } else {
        let request = request_for(command, &run);
        Step::Dispatch(run, request)
    }
}

/// Records that the stage at hand has completed with `out`.
fn complete(run: PipelineRun, out: CmdOutput) -> (next: PipelineRun)
    requires
        run.stage < usize::MAX,
    ensures
        next@ == run@.completed(out@),
{
    let mut output = run.output;
    output.merge(&out);
    PipelineRun { stage: run.stage + 1, output, previous: Some(out) }
}

/// Ends the pipeline with `error`, which becomes the session's status where
/// it carries one.
fn fail<C>(state: &mut ShellState<C>, error: ShellError) -> (step: Step)
    ensures
        step@ == StepView::Done(Err(error@)),
        final(state).status == status_after(old(state).status as int, step@),
        final(state).keeps_all_but_status(old(state)),
{
    match &error {
        ShellError::Execution(e) => {
            state.status = e.status;
        },
        ShellError::Tokenization(_) => {},
    }
    Step::Done(Err(error))
}

/// One decision of the executor: given how far the pipeline `command` has
/// come and what the host reports of the stage at hand, says what is to be
/// done next. Stages run left to right, one at a time; the first stage gets
/// no input and every other the output of the stage before it; a stage goes
/// to an external program only after the table of builtins has answered that
/// it has no such builtin; the first error ends the pipeline. When the
/// pipeline is over, the session's status is the exit code of its last stage,
/// or the status of the error that stopped it; nothing else of the session
/// changes here.
pub fn run_command<C>(
    state: &mut ShellState<C>,
    command: &Vec<Command>,
    run: PipelineRun,
    event: StageEvent,
) -> (step: Step)
    requires
        stages_named(command.deep_view()),
    ensures
        step@ == next_step(command.deep_view(), run@, event@),
        final(state).status == status_after(old(state).status as int, step@),
        final(state).keeps_all_but_status(old(state)),
{
    if run.stage >= command.len() {
        return enter(state, command, run);
    }
    match event {
        StageEvent::Begin => enter(state, command, run),
        StageEvent::Builtin(Ok(Dispatch::Handled(out))) => {
            let next = complete(run, out);
            enter(state, command, next)
        },
        StageEvent::Builtin(Ok(Dispatch::NotMatched)) => {
            let request = request_for(command, &run);
            Step::Spawn(run, request)
        },
        StageEvent::Builtin(Err(error)) => fail(state, error),
        StageEvent::Spawned(spawned) => {
            assert(command.deep_view()[run.stage as int] == command[run.stage as int].words.deep_view());
            match execute(command[run.stage].words[0].as_str(), spawned) {
                Ok(out) => {
                    let next = complete(run, out);
                    enter(state, command, next)
                },
                Err(error) => fail(state, error),
            }
        },
    }
}

/// Message of the error for tokens that form no pipeline.
pub open spec fn syntax_message() -> Seq<char> {
    "invalid syntax"@
}

/// What a line comes to before any of its stages runs: nothing where the
/// line has no token; else the pipeline that its expanded tokens form; the
/// tokenizer's error where it has one; and one error of status 1 for tokens
/// that form no pipeline.
pub open spec fn evaluation(status: int, env: Seq<(Seq<char>, Seq<char>)>, line: Seq<char>) -> Result<
    Option<Seq<Seq<Seq<char>>>>,
    ShellErrorView,
> {
    match tokens_of(line) {
        Err(e) => Err(ShellErrorView::Tokenization(e)),
        Ok(tokens) => {
            if tokens.len() == 0 {
                Ok(None)
            } else {
                match parse_result(expanded(status, env, tokens)) {
                    Ok(pipeline) => Ok(Some(pipeline)),
                    Err(_) => Err(
                        ShellErrorView::Execution(
                            ExecutionErrorView {
                                status: FAILURE_STATUS as int,
                                details: syntax_message(),
                            },
                        ),
                    ),
                }
            }
        },
    }
}

/// View of what [`eval_expr`] returns.
pub open spec fn view_evaluation(r: Result<Option<Vec<Command>>, ShellError>) -> Result<
    Option<Seq<Seq<Seq<char>>>>,
    ShellErrorView,
> {
    match r {
        Ok(Some(pipeline)) => Ok(Some(pipeline.deep_view())),
        Ok(None) => Ok(None),
        Err(e) => Err(e@),
    }
}

/// Reads one line: splits it into tokens, expands the variable references
/// and parses the pipeline, which the host then runs stage by stage through
/// [`run_command`]. A line without tokens gives no pipeline, is no error and
/// leaves the session as it was. An error of the tokenizer is handed on and
/// leaves the session as it was. Tokens that form no pipeline give one
/// error of status 1, without a position, and that status becomes the
/// session's.
pub fn eval_expr<C>(state: &mut ShellState<C>, env: &Environment, expr: &String) -> (r: Result<
    Option<Vec<Command>>,
    ShellError,
>)
    ensures
        view_evaluation(r) == evaluation(old(state).status as int, env@, expr@),
        r matches Ok(Some(pipeline)) ==> pipeline.len() >= 1 && stages_named(pipeline.deep_view()),
        final(state).status == (match r {
            Err(ShellError::Execution(e)) => e.status,
            _ => old(state).status,
        }),
        final(state).keeps_all_but_status(old(state)),
{
    match tokenize(expr.as_str()) {
        Ok(tokens) => {
            if tokens.len() > 0 {
                let mut tokens = tokens;
                expand_tokens(state, env, &mut tokens);
                match parse_tokens(&tokens) {
                    Ok(commands) => Ok(Some(commands)),
                    Err(_) => {
                        state.status = FAILURE_STATUS;
                        Err(
                            ShellError::Execution(
                                ExecutionError::new(
                                    FAILURE_STATUS,
                                    String::from_str("invalid syntax"),
                                ),
                            ),
                        )
                    },
                }
            } else {
                Ok(None)
            }
        },
        Err(error) => Err(ShellError::Tokenization(error)),
    }
}

/// A line of nothing but blanks comes to nothing: no pipeline and no error.
/// [`eval_expr`] then leaves the session, its status included, as it was.
pub proof fn lemma_blank_line_comes_to_nothing(
    status: int,
    env: Seq<(Seq<char>, Seq<char>)>,
    line: Seq<char>,
)
    requires
        is_blank_line(line),
    ensures
        evaluation(status, env, line) == Ok::<Option<Seq<Seq<Seq<char>>>>, ShellErrorView>(None),
{
    lemma_blank_line_has_no_tokens(line);
}

/// Once a pipeline has run to its end with exit code `code`, a reference to
/// `?` stands for `code` in decimal, and that text, read as a line, is one
/// word.
pub proof fn lemma_status_shows_in_next_line(
    status: int,
    out: CmdOutputView,
    env: Seq<(Seq<char>, Seq<char>)>,
)
    ensures
        expansion(status_after(status, StepView::Done(Ok(out))), env, seq!['?']) == decimal_text(
            out.code,
        ),
        expanded(out.code, env, seq![TokenView::Variable(seq!['?'])]) == seq![
            TokenView::Word(decimal_text(out.code)),
        ],
        tokens_of(decimal_text(out.code)) == Ok::<Seq<TokenView>, TokenizationError>(
            seq![TokenView::Word(decimal_text(out.code))],
        ),
{
    let text = decimal_text(out.code);
    lemma_decimal_text_chars(out.code);
    assert forall|k: int| 0 <= k < text.len() implies is_plain(#[trigger] text[k]) by {
        assert(is_decimal_char(text[k]));
    }
    assert(is_decimal_char(text[0]));
    lemma_plain_text_is_one_word(text);
    assert(expanded(out.code, env, seq![TokenView::Variable(seq!['?'])]) =~= seq![
        TokenView::Word(text),
    ]);
}

/// A reference to a name that is not bound expands to the reference as it
/// was written; and that text, read as a line and expanded again, gives the
/// same word.
pub proof fn lemma_unbound_reference_round_trip(
    status: int,
    env: Seq<(Seq<char>, Seq<char>)>,
    name: Seq<char>,
)
    requires
        is_variable_name(name),
        name != seq!['?'],
        lookup(env, name) is None,
    ensures
        expansion(status, env, name) == seq!['$'] + name,
        tokens_of(expansion(status, env, name)) matches Ok(tokens) && expanded(
            status,
            env,
            tokens,
        ) == seq![TokenView::Word(expansion(status, env, name))],
{
    lemma_reference_is_one_variable(name);
    assert(expanded(status, env, seq![TokenView::Variable(name)]) =~= seq![
        TokenView::Word(seq!['$'] + name),
    ]);
}

/// The first stage gets no input. Every other stage gets for input the
/// output of the stage before it, whether a builtin or a program produced
/// it, and where the stage goes to a program, the program is asked for with
/// what the builtins were asked for.
pub proof fn lemma_stage_reads_previous_output(
    pipeline: Seq<Seq<Seq<char>>>,
    run: PipelineRunView,
    out: CmdOutputView,
)
    requires
        run.stage + 1 < pipeline.len(),
    ensures
        next_step(pipeline, PipelineRunView::start(), StageEventView::Begin) matches StepView::Dispatch(
            _,
            first,
        ) && first.input is None,
        next_step(
            pipeline,
            run,
            StageEventView::Builtin(Ok(DispatchView::Handled(out))),
        ) matches StepView::Dispatch(next, request) && next.stage == run.stage + 1 && request.input
            == Some(out),
        next_step(
            pipeline,
            run,
            StageEventView::Spawned(SpawnOutcomeView::Completed(out)),
        ) matches StepView::Dispatch(next, request) && next.stage == run.stage + 1 && request.input
            == Some(out),
        next_step(pipeline, run, StageEventView::Begin) matches StepView::Dispatch(_, asked)
            && next_step(pipeline, run, StageEventView::Builtin(Ok(DispatchView::NotMatched)))
            == StepView::Spawn(run, asked),
{
}

/// A stage is opened by asking the builtins. A program is asked for only in
/// answer to the report that no builtin matched: where a builtin handled the
/// command, no program of that name is run.
pub proof fn lemma_builtin_goes_first(
    pipeline: Seq<Seq<Seq<char>>>,
    run: PipelineRunView,
    event: StageEventView,
)
    ensures
        !(next_step(pipeline, run, StageEventView::Begin) is Spawn),
        next_step(pipeline, run, event) is Spawn ==> event == StageEventView::Builtin(
            Ok(DispatchView::NotMatched),
        ),
{
}

/// A command that is no builtin and that no program answers to ends the
/// pipeline with an error of status 127, whose message begins with the
/// command's name; 127 is then the session's status.
pub proof fn lemma_unknown_command(pipeline: Seq<Seq<Seq<char>>>, run: PipelineRunView, status: int)
    requires
        run.stage < pipeline.len(),
    ensures
        next_step(pipeline, run, StageEventView::Spawned(SpawnOutcomeView::NotFound))
            == StepView::Done(
            Err(
                ShellErrorView::Execution(
                    ExecutionErrorView {
                        status: 127,
                        details: not_found_message(pipeline[run.stage as int][0]),
                    },
                ),
            ),
        ),
        not_found_message(pipeline[run.stage as int][0]).subrange(
            0,
            pipeline[run.stage as int][0].len() as int,
        ) == pipeline[run.stage as int][0],
        status_after(
            status,
            next_step(pipeline, run, StageEventView::Spawned(SpawnOutcomeView::NotFound)),
        ) == 127,
{
    let name = pipeline[run.stage as int][0];
    assert(not_found_message(name).subrange(0, name.len() as int) =~= name);
}

/// The step that the host's reports `events`, taken in order, lead to from
/// `step`. A pipeline that is over stays over.
pub open spec fn run_from(
    pipeline: Seq<Seq<Seq<char>>>,
    step: StepView,
    events: Seq<StageEventView>,
) -> StepView
    decreases events.len(),
{
    if events.len() == 0 {
        step
    } else {
        match step {
            StepView::Done(_) => step,
            StepView::Dispatch(run, _) => run_from(
                pipeline,
                next_step(pipeline, run, events[0]),
                events.drop_first(),
            ),
            StepView::Spawn(run, _) => run_from(
                pipeline,
                next_step(pipeline, run, events[0]),
                events.drop_first(),
            ),
        }
    }
}

/// An error of a builtin ends the pipeline at once with that error: the
/// stage does not go to a program, and whatever is reported afterwards, no
/// later stage is opened.
pub proof fn lemma_builtin_error_ends_pipeline(
    pipeline: Seq<Seq<Seq<char>>>,
    run: PipelineRunView,
    error: ShellErrorView,
    later: Seq<StageEventView>,
)
    requires
        run.stage < pipeline.len(),
    ensures
        next_step(pipeline, run, StageEventView::Builtin(Err(error))) == StepView::Done(
            Err(error),
        ),
        run_from(pipeline, StepView::Dispatch(run, stage_request(pipeline, run)), seq![
            StageEventView::Builtin(Err(error)),
        ] + later) == StepView::Done(Err(error)),
{
    let events = seq![StageEventView::Builtin(Err(error))] + later;
    assert(events[0] == StageEventView::Builtin(Err::<DispatchView, ShellErrorView>(error)));
    assert(events.drop_first() =~= later);
    assert(run_from(pipeline, StepView::Done(Err(error)), later) == StepView::Done(Err(error)));
}

/// How one stage completed: with which output, and whether a program
/// produced it (else a builtin did).
pub struct StageReport {
    pub output: CmdOutputView,
    pub external: bool,
}

/// What the host reports of a stage that completed.
pub open spec fn stage_events(report: StageReport) -> Seq<StageEventView> {
    if report.external {
        seq![
            StageEventView::Builtin(Ok(DispatchView::NotMatched)),
            StageEventView::Spawned(SpawnOutcomeView::Completed(report.output)),
        ]
    } else {
        seq![StageEventView::Builtin(Ok(DispatchView::Handled(report.output)))]
    }
}

/// What the host reports of stages that completed one after the other.
pub open spec fn all_events(reports: Seq<StageReport>) -> Seq<StageEventView>
    decreases reports.len(),
{
    if reports.len() == 0 {
        Seq::empty()
    } else {
        stage_events(reports[0]) + all_events(reports.drop_first())
    }
}

/// `acc` with the outputs of the stages merged into it, in stage order.
pub open spec fn merged_onto(acc: CmdOutputView, reports: Seq<StageReport>) -> CmdOutputView
    decreases reports.len(),
{
    if reports.len() == 0 {
        acc
    } else {
        merged_onto(acc.merge(reports[0].output), reports.drop_first())
    }
}

/// What the stages wrote to standard output, in stage order.
pub open spec fn stdout_of(reports: Seq<StageReport>) -> Seq<u8>
    decreases reports.len(),
{
    if reports.len() == 0 {
        Seq::empty()
    } else {
        reports[0].output.stdout + stdout_of(reports.drop_first())
    }
}

/// What the stages wrote to standard error, in stage order.
pub open spec fn stderr_of(reports: Seq<StageReport>) -> Seq<u8>
    decreases reports.len(),
{
    if reports.len() == 0 {
        Seq::empty()
    } else {
        reports[0].output.stderr + stderr_of(reports.drop_first())
    }
}

/// Merging keeps what every stage wrote, in stage order, and the exit code
/// of the last stage alone.
pub proof fn lemma_merged_output(acc: CmdOutputView, reports: Seq<StageReport>)
    ensures
        merged_onto(acc, reports).stdout == acc.stdout + stdout_of(reports),
        merged_onto(acc, reports).stderr == acc.stderr + stderr_of(reports),
        merged_onto(acc, reports).code == (if reports.len() == 0 {
            acc.code
        } else {
            reports.last().output.code
        }),
    decreases reports.len(),
{
    if reports.len() == 0 {
        assert(acc.stdout + stdout_of(reports) =~= acc.stdout);
        assert(acc.stderr + stderr_of(reports) =~= acc.stderr);
    } else {
        let rest = reports.drop_first();
        let first = reports[0].output;
        lemma_merged_output(acc.merge(first), rest);
        assert((acc.stdout + first.stdout) + stdout_of(rest) =~= acc.stdout + (first.stdout
            + stdout_of(rest)));
        assert((acc.stderr + first.stderr) + stderr_of(rest) =~= acc.stderr + (first.stderr
            + stderr_of(rest)));
        if rest.len() > 0 {
            assert(rest.last() == reports.last());
        }
    }
}

proof fn lemma_run_completes(
    pipeline: Seq<Seq<Seq<char>>>,
    run: PipelineRunView,
    reports: Seq<StageReport>,
)
    requires
        run.stage + reports.len() == pipeline.len(),
    ensures
        run_from(pipeline, enter_stage(pipeline, run), all_events(reports)) == StepView::Done(
            Ok(merged_onto(run.output, reports)),
        ),
    decreases reports.len(),
{
    if reports.len() > 0 {
        let rest = reports.drop_first();
        let out = reports[0].output;
        let events = all_events(reports);
        let next = run.completed(out);
        lemma_run_completes(pipeline, next, rest);
        if reports[0].external {
            let after_first = events.drop_first();
            assert(events[0] == StageEventView::Builtin(
                Ok::<DispatchView, ShellErrorView>(DispatchView::NotMatched),
            ));
            assert(after_first[0] == StageEventView::Spawned(SpawnOutcomeView::Completed(out)));
            assert(after_first.drop_first() =~= all_events(rest));
            assert(next_step(pipeline, run, events[0]) == StepView::Spawn(
                run,
                stage_request(pipeline, run),
            ));
            assert(next_step(pipeline, run, after_first[0]) == enter_stage(pipeline, next));
            assert(run_from(pipeline, StepView::Spawn(run, stage_request(pipeline, run)), after_first)
                == run_from(pipeline, enter_stage(pipeline, next), all_events(rest)));
        } else {
            assert(events[0] == StageEventView::Builtin(
                Ok::<DispatchView, ShellErrorView>(DispatchView::Handled(out)),
            ));
            assert(events.drop_first() =~= all_events(rest));
            assert(next_step(pipeline, run, events[0]) == enter_stage(pipeline, next));
        }
    }
}

/// A pipeline of which every stage completes, each through a builtin or
/// through a program, ends with the outputs of its stages merged in stage
/// order: the streams hold what every stage wrote, and the exit code is the
/// last stage's, which becomes the session's status.
pub proof fn lemma_pipeline_output(
    pipeline: Seq<Seq<Seq<char>>>,
    reports: Seq<StageReport>,
    status: int,
)
    requires
        reports.len() == pipeline.len(),
        pipeline.len() >= 1,
    ensures
        run_from(
            pipeline,
            next_step(pipeline, PipelineRunView::start(), StageEventView::Begin),
            all_events(reports),
        ) matches StepView::Done(Ok(out)) && out.stdout == stdout_of(reports) && out.stderr
            == stderr_of(reports) && out.code == reports.last().output.code && status_after(
            status,
            StepView::Done(Ok(out)),
        ) == reports.last().output.code,
{
    lemma_run_completes(pipeline, PipelineRunView::start(), reports);
    lemma_merged_output(CmdOutputView::empty(), reports);
    assert(Seq::<u8>::empty() + stdout_of(reports) =~= stdout_of(reports));
    assert(Seq::<u8>::empty() + stderr_of(reports) =~= stderr_of(reports));
}

/// Of two stages that complete with `first` and `second`, the pipeline's
/// output holds the standard output of `first` and then that of `second`,
/// and its exit code is that of `second`, whatever that of `first` was.
pub proof fn lemma_last_stage_decides_status(first: CmdOutputView, second: CmdOutputView)
    ensures
        PipelineRunView::start().completed(first).completed(second).output.stdout == first.stdout
            + second.stdout,
        PipelineRunView::start().completed(first).completed(second).output.code == second.code,
{
    assert((Seq::<u8>::empty() + first.stdout) + second.stdout =~= first.stdout + second.stdout);
}

} // verus!
