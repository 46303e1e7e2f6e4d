//! Captured output of one stage, or of several stages merged in order.

use vstd::prelude::*;

verus! {

/// What a stage left behind: both captured streams and its exit code.
#[derive(Debug, PartialEq, Eq)]
pub struct CmdOutput {
    pub stdout: Vec<u8>,
    pub stderr: Vec<u8>,
    pub code: i32,
}

/// Mathematical model of a [`CmdOutput`].
pub struct CmdOutputView {
    pub stdout: Seq<u8>,
    pub stderr: Seq<u8>,
    pub code: int,
}

impl CmdOutputView {
    /// The output of a stage that wrote nothing and succeeded.
    pub open spec fn empty() -> CmdOutputView {
        CmdOutputView { stdout: Seq::empty(), stderr: Seq::empty(), code: 0 }
    }

    /// Both streams of `self` followed by those of `other`; the exit code of `other`.
    pub open spec fn merge(self, other: CmdOutputView) -> CmdOutputView {
        CmdOutputView {
            stdout: self.stdout + other.stdout,
            stderr: self.stderr + other.stderr,
            code: other.code,
        }
    }
}

impl View for CmdOutput {
    type V = CmdOutputView;

    open spec fn view(&self) -> CmdOutputView {
        CmdOutputView { stdout: self.stdout@, stderr: self.stderr@, code: self.code as int }
    }
}

impl DeepView for CmdOutput {
    type V = CmdOutputView;

    open spec fn deep_view(&self) -> CmdOutputView {
        self@
    }
}

/// View of an optional output.
pub open spec fn view_opt(o: Option<CmdOutput>) -> Option<CmdOutputView> {
    match o {
        Some(out) => Some(out@),
        None => None,
    }
}

/// Appends every byte of `src` to `dst`.
pub fn append_bytes(dst: &mut Vec<u8>, src: &Vec<u8>)
    ensures
        final(dst)@ == old(dst)@ + src@,
{
    let mut i: usize = 0;
    while i < src.len()
        invariant
            i <= src.len(),
            dst@ == old(dst)@ + src@.take(i as int),
        decreases src.len() - i,
    {
        dst.push(src[i]);
        i += 1;
    }
}

impl CmdOutput {
    /// An output with empty streams and exit code 0.
    pub fn new() -> (out: CmdOutput)
        ensures
            out@ == CmdOutputView::empty(),
    {
        CmdOutput { stdout: Vec::new(), stderr: Vec::new(), code: 0 }
    }

    /// An output made of the given streams and exit code.
    pub fn from_parts(stdout: Vec<u8>, stderr: Vec<u8>, code: i32) -> (out: CmdOutput)
        ensures
            out@ == (CmdOutputView { stdout: stdout@, stderr: stderr@, code: code as int }),
    {
        CmdOutput { stdout, stderr, code }
    }

    /// Appends the streams of `other` and takes over its exit code: the
    /// streams of every stage stay observable, the code is the last stage's.
    pub fn merge(&mut self, other: &CmdOutput)
        ensures
            final(self)@ == old(self)@.merge(other@),
    {
        append_bytes(&mut self.stdout, &other.stdout);
        append_bytes(&mut self.stderr, &other.stderr);
        self.code = other.code;
    }

}

impl Clone for CmdOutput {
    fn clone(&self) -> (out: CmdOutput)
        ensures
            out@ == self@,
    {
        let mut out = CmdOutput::new();
        out.merge(self);
        out
    }
}

} // verus!
