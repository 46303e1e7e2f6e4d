//! The session: what one shell keeps from line to line.

use vstd::prelude::*;
use vstd::std_specs::convert::FromSpecImpl;
use crate::eval::{ExecutionError, ExecutionErrorView};
use crate::tokenizer::TokenizationError;

verus! {

/// Why the evaluation of a line stopped.
#[derive(Debug, Clone, PartialEq, Eq)]
pub enum ShellError {
    /// The line could not be split into tokens.
    Tokenization(TokenizationError),
    /// The line was read but could not be run to its end.
    Execution(ExecutionError),
}

/// Mathematical model of a [`ShellError`].
pub enum ShellErrorView {
    Tokenization(TokenizationError),
    Execution(ExecutionErrorView),
}

impl View for ShellError {
    type V = ShellErrorView;

    open spec fn view(&self) -> ShellErrorView {
        match *self {
            ShellError::Tokenization(e) => ShellErrorView::Tokenization(e),
            ShellError::Execution(e) => ShellErrorView::Execution(e@),
        }
    }
}

impl From<ExecutionError> for ShellError {
    fn from(err: ExecutionError) -> (e: ShellError) {
        ShellError::Execution(err)
    }
}

impl FromSpecImpl<ExecutionError> for ShellError {
    open spec fn obeys_from_spec() -> bool {
        true
    }

    open spec fn from_spec(err: ExecutionError) -> ShellError {
        ShellError::Execution(err)
    }
}

impl From<TokenizationError> for ShellError {
    fn from(err: TokenizationError) -> (e: ShellError) {
        ShellError::Tokenization(err)
    }
}

impl FromSpecImpl<TokenizationError> for ShellError {
    open spec fn obeys_from_spec() -> bool {
        true
    }

    open spec fn from_spec(err: TokenizationError) -> ShellError {
        ShellError::Tokenization(err)
    }
}

/// The context of one shell session. One value is handed, by exclusive
/// reference, through the evaluation of every line.
#[derive(Debug)]
pub struct ShellState<C> {
    /// Exit status of the last line that ran.
    pub status: i32,
    /// Cleared by a builtin that ends the session.
    pub running: bool,
    /// Configuration, carried and never read here.
    pub config: C,
    /// Bytes of the shell's own output that its sink has not taken yet.
    pub stdout: Vec<u8>,
    /// Bytes of the shell's own diagnostics that their sink has not taken yet.
    pub stderr: Vec<u8>,
}

impl<C> ShellState<C> {
    /// Whether this session is `before` in everything but, possibly, the status.
    pub open spec fn keeps_all_but_status(&self, before: &ShellState<C>) -> bool {
        &&& self.running == before.running
        &&& self.config == before.config
        &&& self.stdout == before.stdout
        &&& self.stderr == before.stderr
    }

    /// A fresh session: status 0, running, nothing pending for either sink.
    pub fn new(config: C) -> (state: ShellState<C>)
        ensures
            state.status == 0,
            state.running,
            state.config == config,
            state.stdout@ == Seq::<u8>::empty(),
            state.stderr@ == Seq::<u8>::empty(),
    {
        ShellState { status: 0, running: true, config, stdout: Vec::new(), stderr: Vec::new() }
    }
}

} // verus!
