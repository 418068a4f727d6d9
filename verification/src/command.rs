//! Programs to run, and what came of running them.

use vstd::prelude::*;

use crate::bytes;
use crate::text;

verus! {

/// A program and its arguments.
#[derive(Debug, Clone)]
pub struct CommandPlan {
    pub program: String,
    pub args: Vec<String>,
}

impl CommandPlan {
    /// The command runs `program` with `args`.
    pub open spec fn is(self, program: Seq<char>, args: Seq<Seq<char>>) -> bool {
        self.program@ == program && text::views(self.args@) == args
    }
}

/// How a program ended, and what it printed.
#[derive(Debug, Clone)]
pub struct ProgramOutput {
    pub success: bool,
    /// The exit status, unless a signal ended the program.
    pub code: Option<i32>,
    pub stdout: Vec<u8>,
    pub stderr: Vec<u8>,
}

impl ProgramOutput {
    /// What was printed, as text.
    pub open spec fn out_text(self) -> Seq<char> {
        bytes::text_of(self.stdout@)
    }

    /// What was complained of, as text.
    pub open spec fn err_text(self) -> Seq<char> {
        bytes::text_of(self.stderr@)
    }

    /// What was printed, as text.
    pub fn printed(&self) -> (r: String)
        ensures
            r@ == self.out_text(),
    {
        bytes::decode_lossy(self.stdout.as_slice())
    }

    /// What was complained of, as text.
    pub fn complaint(&self) -> (r: String)
        ensures
            r@ == self.err_text(),
    {
        bytes::decode_lossy(self.stderr.as_slice())
    }
}

} // verus!
