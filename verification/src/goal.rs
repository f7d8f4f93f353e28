//! Goals: what an agent may change, and which commands must pass.
use crate::glob;
use crate::text;
use vstd::prelude::*;

verus! {

/// What a goal permits: the patterns of files that may be written, and the
/// commands that may be run.
#[derive(Debug)]
pub struct Allow {
    pub fs_write: Vec<String>,
    pub shell: Vec<String>,
}

/// A goal: its name, what it permits, and the commands that must pass.
#[derive(Debug)]
pub struct GoalSpec {
    pub name: String,
    pub allow: Allow,
    pub required: Vec<String>,
}

/// What a goal says.
pub struct GoalModel {
    pub name: Seq<char>,
    pub fs_write: Seq<Seq<char>>,
    pub shell: Seq<Seq<char>>,
    pub required: Seq<Seq<char>>,
}

impl View for GoalSpec {
    type V = GoalModel;

    open spec fn view(&self) -> GoalModel {
        GoalModel {
            name: self.name@,
            fs_write: text::texts(self.allow.fs_write@),
            shell: text::texts(self.allow.shell@),
            required: text::texts(self.required@),
        }
    }
}

impl GoalModel {
    /// Whether a file may be written. A goal that names no pattern restricts
    /// nothing.
    pub open spec fn writable(self, path: Seq<char>) -> bool {
        self.fs_write.len() == 0 || glob::any_matches(self.fs_write, path)
    }

    /// Whether a command may be run.
    pub open spec fn permits(self, command: Seq<char>) -> bool {
        self.shell.contains(command)
    }

    /// Some command must pass that may not be run.
    pub open spec fn misconfigured(self) -> bool {
        exists|i: int| 0 <= i < self.required.len() && !self.permits(#[trigger] self.required[i])
    }
}

impl GoalSpec {
    /// The patterns that restrict writing; `None` where nothing is restricted.
    pub fn allowed_writes(&self) -> (r: Option<&Vec<String>>)
        ensures
            r is None <==> self@.fs_write.len() == 0,
            r matches Some(globs) ==> text::texts(globs@) == self@.fs_write,
    {
        if self.allow.fs_write.len() == 0 {
            None
        } else {
            Some(&self.allow.fs_write)
        }
    }

    /// The commands that must pass.
    pub fn required_commands(&self) -> (r: Vec<String>)
        ensures
            text::texts(r@) == self@.required,
    {
        text::copy_texts(&self.required)
    }

    /// Whether a command may be run.
    pub fn command_allowed(&self, command: &String) -> (r: bool)
        ensures
            r == self@.permits(command@),
    {
        text::has_text(&self.allow.shell, command)
    }

    /// Whether some command must pass that may not be run.
    pub fn is_misconfigured(&self) -> (r: bool)
        ensures
            r == self@.misconfigured(),
    {
        let n: usize = self.required.len();
        let mut i: usize = 0;
        while i < n
            invariant
                n == self.required.len(),
                i <= n,
                forall|k: int| 0 <= k < i ==> self@.permits(#[trigger] self@.required[k]),
            decreases n - i,
        {
            assert(self@.required[i as int] == self.required@[i as int]@);
            if !self.command_allowed(&self.required[i]) {
                return true;
            }
            i = i + 1;
        }
        false
    }
}

impl Clone for GoalSpec {
    fn clone(&self) -> (r: GoalSpec)
        ensures
            r@ == self@,
    {
        GoalSpec {
            name: self.name.clone(),
            allow: Allow {
                fs_write: text::copy_texts(&self.allow.fs_write),
                shell: text::copy_texts(&self.allow.shell),
            },
            required: text::copy_texts(&self.required),
        }
    }
}

} // verus!
