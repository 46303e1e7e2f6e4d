//! What the table of builtins answers when it is asked for a command.

use vstd::prelude::*;
use crate::cmdoutput::{CmdOutput, CmdOutputView};

verus! {

/// Answer of the builtin table for one command name.
#[derive(Debug, Clone, PartialEq, Eq)]
pub enum Dispatch {
    /// A builtin of that name ran in-process and produced this output.
    Handled(CmdOutput),
    /// No builtin has that name.
    NotMatched,
}

/// Mathematical model of a [`Dispatch`].
pub enum DispatchView {
    Handled(CmdOutputView),
    NotMatched,
}

impl View for Dispatch {
    type V = DispatchView;

    open spec fn view(&self) -> DispatchView {
        match *self {
            Dispatch::Handled(out) => DispatchView::Handled(out@),
            Dispatch::NotMatched => DispatchView::NotMatched,
        }
    }
}

} // verus!
