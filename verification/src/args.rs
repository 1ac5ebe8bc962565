//! The command line: what the formatter is asked to do, and with which
//! inputs and configuration.
use crate::strs::str_eq;
use vstd::prelude::*;

verus! {

/// What is done with the formatted files.
#[derive(Clone, Copy, PartialEq, Eq, Structural, Debug)]
pub enum Mode {
    /// Report the files that formatting would change; write nothing.
    Check,
    /// Write the changed files back.
    Write,
    /// Print the formatted sources on the standard output.
    Std,
}

/// The parsed command line.
pub struct Args {
    pub paths: Vec<String>,
    pub config: Option<String>,
    pub mode: Mode,
    pub time: bool,
}

/// Whether `-` is among the paths.
pub open spec fn names_stdin(paths: Seq<String>) -> bool {
    exists|i: int| 0 <= i < paths.len() && #[trigger] paths[i]@ == "-"@
}

impl Mode {
    /// The mode of the flags `--check` and `--write`; both together are a
    /// usage error.
    pub fn from_flags(check: bool, write: bool) -> (r: Result<Mode, String>)
        ensures
            check && write <==> r is Err,
            check && !write ==> r == Ok::<Mode, String>(Mode::Check),
            write && !check ==> r == Ok::<Mode, String>(Mode::Write),
            !check && !write ==> r == Ok::<Mode, String>(Mode::Std),
            r matches Err(e) ==> e@ == "--check cannot be combined with --write"@,
    {
        if check && write {
            Err(crate::strs::owned("--check cannot be combined with --write"))
        } else if check {
            Ok(Mode::Check)
        } else if write {
            Ok(Mode::Write)
        } else {
            Ok(Mode::Std)
        }
    }
}

impl Args {
    /// The arguments of a run. At least one path is needed; `-` stands for
    /// the standard input, and it goes alone and only with printing.
    pub fn new(mode: Mode, paths: Vec<String>, config: Option<String>, time: bool) -> (r: Result<Args, String>)
        ensures
            r is Ok <==> (paths@.len() > 0 && (names_stdin(paths@) ==> paths@.len() == 1 && mode == Mode::Std)),
            r matches Ok(a) ==> a.mode == mode && a.paths@ == paths@ && a.config == config && a.time == time,
            paths@.len() == 0 ==> (r matches Err(e) && e@ == "no input path was given"@),
            paths@.len() > 1 && names_stdin(paths@) ==> (r matches Err(e) && e@
                == "`-` cannot be combined with another path"@),
            paths@.len() == 1 && names_stdin(paths@) && mode != Mode::Std ==> (r matches Err(e) && e@
                == "`-` cannot be combined with --write or --check"@),
    {
        if paths.len() == 0 {
            return Err(crate::strs::owned("no input path was given"));
        }
        let mut i: usize = 0;
        let mut stdin = false;
        while i < paths.len()
            invariant
                i <= paths@.len(),
                stdin <==> exists|k: int| 0 <= k < i && #[trigger] paths@[k]@ == "-"@,
            decreases paths@.len() - i,
        {
            if str_eq(paths[i].as_str(), "-") {
                stdin = true;
            }
            i = i + 1;
        }
        if stdin && paths.len() > 1 {
            return Err(crate::strs::owned("`-` cannot be combined with another path"));
        }
        if stdin && mode != Mode::Std {
            return Err(crate::strs::owned("`-` cannot be combined with --write or --check"));
        }
        Ok(Args { paths, config, mode, time })
    }

    /// Whether the source is read from the standard input.
    pub fn reads_stdin(&self) -> (r: bool)
        ensures
            r == (self.paths@.len() == 1 && self.paths@[0]@ == "-"@),
    {
        self.paths.len() == 1 && str_eq(self.paths[0].as_str(), "-")
    }
}

} // verus!
