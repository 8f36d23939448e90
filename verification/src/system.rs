//! The commands by which the machine is shut down, restarted and updated,
//! and the rule by which an update is told. Nothing is run here: the caller
//! runs the command lines and hands back what they printed.

use vstd::prelude::*;
use vstd::string::StringExecFns;
use crate::text::{find_line_end, lines_from, ranges_equal, strip, stripped, Strip, TextRange};

verus! {

/// A command line: a program and its arguments.
#[derive(Debug)]
pub struct CommandLine {
    pub program: String,
    pub args: Vec<String>,
}

/// The arguments of a command line, as texts.
pub open spec fn texts(args: Seq<String>) -> Seq<Seq<char>> {
    Seq::new(args.len(), |i: int| args[i]@)
}

/// The commands that act on the machine as a whole.
#[derive(Clone, Copy, Debug)]
pub struct SystemControl {}

impl SystemControl {
    /// The command line that halts the machine now.
    pub fn shutdown_command() -> (cmd: CommandLine)
        ensures
            cmd.program@ == "sudo"@,
            texts(cmd.args@) == seq!["shutdown"@, "-h"@, "now"@],
    {
        let mut args: Vec<String> = Vec::new();
        args.push(String::from_str("shutdown"));
        args.push(String::from_str("-h"));
        args.push(String::from_str("now"));
        assert(texts(args@) =~= seq!["shutdown"@, "-h"@, "now"@]);
        CommandLine { program: String::from_str("sudo"), args }
    }

    /// The command line that restarts the machine.
    pub fn reboot_command() -> (cmd: CommandLine)
        ensures
            cmd.program@ == "sudo"@,
            texts(cmd.args@) == seq!["reboot"@],
    {
        let mut args: Vec<String> = Vec::new();
        args.push(String::from_str("reboot"));
        assert(texts(args@) =~= seq!["reboot"@]);
        CommandLine { program: String::from_str("sudo"), args }
    }
}

/// Why the application could not tell whether there is an update.
#[derive(Clone, Copy, Debug, PartialEq, Eq, Structural)]
pub enum UpdateError {
    /// The answer of the repository has fewer than two lines.
    UnexpectedOutput,
}

/// What the output of the check command says: whether the commits that its
/// last two lines name differ. The lines are compared without the blanks
/// around them. Fewer than two lines say nothing.
pub open spec fn check_verdict(s: Seq<u8>) -> Result<bool, UpdateError> {
    let lines = lines_from(s, 0);
    if lines.len() < 2 {
        Err(UpdateError::UnexpectedOutput)
    } else {
        let local = lines[lines.len() - 2];
        let remote = lines[lines.len() - 1];
        let (la, lb) = stripped(s, Strip::Blanks, local.0, local.1);
        let (ra, rb) = stripped(s, Strip::Blanks, remote.0, remote.1);
        Ok(s.subrange(la, lb) != s.subrange(ra, rb))
    }
}

/// The last two lines of a text, if it has as many.
fn last_two_lines(text: &[u8]) -> (r: Option<(TextRange, TextRange)>)
    ensures
        match r {
            Some((a, b)) => {
                &&& lines_from(text@, 0).len() >= 2
                &&& (a.start as int, a.end as int) == lines_from(text@, 0)[lines_from(
                    text@,
                    0,
                ).len() - 2]
                &&& (b.start as int, b.end as int) == lines_from(text@, 0).last()
                &&& a.start <= a.end <= text@.len()
                &&& b.start <= b.end <= text@.len()
            },
            None => lines_from(text@, 0).len() < 2,
        },
{
    let len: usize = text.len();
    let mut earlier: Option<TextRange> = None;
    let mut last: Option<TextRange> = None;
    let ghost mut seen: Seq<(int, int)> = Seq::empty();
    let mut from: usize = 0;
    assert(seen + lines_from(text@, 0) =~= lines_from(text@, 0));
    while from < len
        invariant
            from <= len,
            len == text@.len(),
            seen + lines_from(text@, from as int) == lines_from(text@, 0),
            match last {
                Some(b) => seen.len() >= 1 && seen.last() == (b.start as int, b.end as int)
                    && b.start <= b.end <= len,
                None => seen.len() == 0,
            },
            match earlier {
                Some(a) => seen.len() >= 2 && seen[seen.len() - 2] == (a.start as int, a.end as int)
                    && a.start <= a.end <= len,
                None => seen.len() < 2,
            },
        decreases len - from,
    {
        let end: usize = find_line_end(text, from);
        proof {
            let rest = lines_from(text@, end + 1);
            let line = (from as int, end as int);
            assert(lines_from(text@, from as int) == seq![line] + rest);
            assert(seen.push(line) + rest =~= seen + (seq![line] + rest));
            assert(lines_from(text@, len + 1) =~= Seq::<(int, int)>::empty());
            assert(lines_from(text@, len as int) =~= Seq::<(int, int)>::empty());
            seen = seen.push(line);
        }
        earlier = last;
        last = Some(TextRange { start: from, end });
        if end == len {
            from = len;
        } else {
            from = end + 1;
        }
    }
    proof {
        assert(seen + Seq::<(int, int)>::empty() =~= seen);
    }
    match (earlier, last) {
        (Some(a), Some(b)) => Some((a, b)),
        _ => None,
    }
}

/// Keeps track of updates of the application, which lives in a git
/// repository.
#[derive(Debug)]
pub struct UpdateManager {
    /// Whether an update is available.
    pub update_available: bool,
    /// The directory of the repository.
    project_path: String,
}

impl UpdateManager {
    /// The directory of the repository.
    pub closed spec fn path(&self) -> Seq<char> {
        self.project_path@
    }

    /// Whether an update is available, as far as the manager knows.
    pub closed spec fn available(&self) -> bool {
        self.update_available
    }

    /// Whether an update is available, as far as the manager knows.
    pub fn is_update_available(&self) -> (available: bool)
        ensures
            available == self.available(),
    {
        self.update_available
    }

    pub fn new(project_path: String) -> (manager: UpdateManager)
        ensures
            !manager.available(),
            manager.path() == project_path@,
    {
        UpdateManager { update_available: false, project_path }
    }

    /// The directory of the repository.
    pub fn project_path(&self) -> (path: &str)
        ensures
            path@ == self.path(),
    {
        self.project_path.as_str()
    }

    /// The shell command that fetches the remote branch and prints the local
    /// commit and the remote commit, one line each, last.
    pub fn check_command(&self) -> (cmd: String)
        ensures
            cmd@ == "cd "@ + self.path()
                + " && git fetch origin main 2>&1 && git rev-parse HEAD && git rev-parse origin/main"@,
    {
        let mut cmd: String = String::from_str("cd ");
        cmd.append(self.project_path.as_str());
        cmd.append(
            " && git fetch origin main 2>&1 && git rev-parse HEAD && git rev-parse origin/main",
        );
        cmd
    }

    /// The shell command that pulls the remote branch.
    pub fn pull_command(&self) -> (cmd: String)
        ensures
            cmd@ == "cd "@ + self.path() + " && git pull origin main 2>&1"@,
    {
        let mut cmd: String = String::from_str("cd ");
        cmd.append(self.project_path.as_str());
        cmd.append(" && git pull origin main 2>&1");
        cmd
    }

    /// The shell command that restarts a service.
    pub fn restart_command(service_name: &str) -> (cmd: String)
        ensures
            cmd@ == "sudo systemctl restart "@ + service_name@,
    {
        let mut cmd: String = String::from_str("sudo systemctl restart ");
        cmd.append(service_name);
        cmd
    }

    /// Takes in what the check command printed. The last two lines name
    /// the local and the remote commit: an update is available exactly when
    /// they differ, the blanks around them left aside.
    ///
    /// Fails, and leaves `update_available` as it is, where the output has
    /// fewer than two lines.
    pub fn record_output(&mut self, output: &[u8]) -> (r: Result<bool, UpdateError>)
        ensures
            final(self).path() == old(self).path(),
            r == check_verdict(output@),
            final(self).available() == match r {
                Ok(differ) => differ,
                Err(_) => old(self).available(),
            },
    {
        match last_two_lines(output) {
            Some((local, remote)) => {
                let a: TextRange = strip(output, Strip::Blanks, local.start, local.end);
                let b: TextRange = strip(output, Strip::Blanks, remote.start, remote.end);
                let differ: bool = !ranges_equal(output, a, b);
                self.update_available = differ;
                Ok(differ)
            },
            None => Err(UpdateError::UnexpectedOutput),
        }
    }

    /// Takes in the lines that the check command printed, each without the
    /// blanks around it. The last two lines name the local and the remote
    /// commit: an update is available exactly when they differ.
    ///
    /// Fails, and leaves `update_available` as it is, where there are fewer
    /// than two lines.
    pub fn record_check(&mut self, lines: &Vec<String>) -> (r: Result<bool, UpdateError>)
        ensures
            final(self).path() == old(self).path(),
            lines@.len() < 2 ==> r == Err::<bool, UpdateError>(UpdateError::UnexpectedOutput)
                && final(self).available() == old(self).available(),
            lines@.len() >= 2 ==> r == Ok::<bool, UpdateError>(
                lines@[lines@.len() - 2]@ != lines@[lines@.len() - 1]@,
            ) && final(self).available() == (lines@[lines@.len() - 2]@ != lines@[lines@.len()
                - 1]@),
    {
        let n: usize = lines.len();
        if n < 2 {
            return Err(UpdateError::UnexpectedOutput);
        }
        let differ: bool = !(lines[n - 2] == lines[n - 1]);
        self.update_available = differ;
        Ok(differ)
    }
}

} // verus!
