//! What a run reports: the fate of each selected file, the counts over all
//! of them, the exit status, and how formatted sources are framed on the
//! standard output.
use crate::args::Mode;
use crate::strs::{concat3, owned, string_push_str};
use crate::utility::{decimal, usize_to_string};
use vstd::prelude::*;

verus! {

/// What became of one selected file.
#[derive(Clone, Copy, PartialEq, Eq, Structural, Debug)]
pub enum FileStatus {
    /// Formatting leaves it as it is.
    Unchanged,
    /// Formatting changes it; it was not written.
    Changed,
    /// Formatting changed it and it was written back.
    Written,
    /// It could not be read, parsed, formatted or written.
    Failed,
}

/// The fate of a file: `changed` tells whether formatting changed it, and
/// is `None` where it failed; `written` whether writing it back succeeded.
/// Only a run that writes writes, and only a changed file.
pub fn status_of(mode: Mode, changed: Option<bool>, written: bool) -> (r: FileStatus)
    ensures
        changed is None ==> r == FileStatus::Failed,
        changed == Some(false) ==> r == FileStatus::Unchanged,
        changed == Some(true) && mode != Mode::Write ==> r == FileStatus::Changed,
        changed == Some(true) && mode == Mode::Write ==> r == (if written {
            FileStatus::Written
        } else {
            FileStatus::Failed
        }),
{
    match changed {
        None => FileStatus::Failed,
        Some(false) => FileStatus::Unchanged,
        Some(true) => match mode {
            Mode::Write => if written {
                FileStatus::Written
            } else {
                FileStatus::Failed
            },
            _ => FileStatus::Changed,
        },
    }
}

/// Whether a formatted file is written back: in a run that writes, when
/// formatting changed it.
pub fn needs_write(mode: Mode, changed: bool) -> (r: bool)
    ensures
        r == (mode == Mode::Write && changed),
{
    mode == Mode::Write && changed
}

/// How many of the statuses are `s`.
pub open spec fn count_of(v: Seq<FileStatus>, s: FileStatus) -> nat
    decreases v.len(),
{
    if v.len() == 0 {
        0
    } else {
        count_of(v.drop_last(), s) + if v.last() == s {
            1nat
        } else {
            0nat
        }
    }
}

proof fn lemma_count_bounded(v: Seq<FileStatus>, s: FileStatus)
    ensures
        count_of(v, s) <= v.len(),
    decreases v.len(),
{
    if v.len() > 0 {
        lemma_count_bounded(v.drop_last(), s);
    }
}

proof fn lemma_counts_sum(v: Seq<FileStatus>)
    ensures
        count_of(v, FileStatus::Unchanged) + count_of(v, FileStatus::Changed) + count_of(v, FileStatus::Written)
            + count_of(v, FileStatus::Failed) == v.len(),
    decreases v.len(),
{
    if v.len() > 0 {
        lemma_counts_sum(v.drop_last());
    }
}

/// The counts over the files of a run.
pub struct RunSummary {
    pub selected: usize,
    pub changed: usize,
    pub written: usize,
    pub unchanged: usize,
    pub failed: usize,
}

impl RunSummary {
    /// The counts over the statuses of the selected files: a file written
    /// back counts as changed and as written.
    pub fn of(statuses: &Vec<FileStatus>) -> (r: RunSummary)
        ensures
            r.selected == statuses@.len(),
            r.unchanged == count_of(statuses@, FileStatus::Unchanged),
            r.changed == count_of(statuses@, FileStatus::Changed) + count_of(statuses@, FileStatus::Written),
            r.written == count_of(statuses@, FileStatus::Written),
            r.failed == count_of(statuses@, FileStatus::Failed),
    {
        let mut r = RunSummary { selected: 0, changed: 0, written: 0, unchanged: 0, failed: 0 };
        let mut i: usize = 0;
        while i < statuses.len()
            invariant
                i <= statuses@.len(),
                r.selected == i,
                r.unchanged == count_of(statuses@.subrange(0, i as int), FileStatus::Unchanged),
                r.changed == count_of(statuses@.subrange(0, i as int), FileStatus::Changed) + count_of(
                    statuses@.subrange(0, i as int),
                    FileStatus::Written,
                ),
                r.written == count_of(statuses@.subrange(0, i as int), FileStatus::Written),
                r.failed == count_of(statuses@.subrange(0, i as int), FileStatus::Failed),
            decreases statuses@.len() - i,
        {
            proof {
                let sub = statuses@.subrange(0, i + 1);
                assert(sub.drop_last() =~= statuses@.subrange(0, i as int));
                lemma_counts_sum(sub);
                lemma_counts_sum(sub.drop_last());
            }
            match statuses[i] {
                FileStatus::Unchanged => {
                    r.unchanged = r.unchanged + 1;
                },
                FileStatus::Changed => {
                    r.changed = r.changed + 1;
                },
                FileStatus::Written => {
                    r.changed = r.changed + 1;
                    r.written = r.written + 1;
                },
                FileStatus::Failed => {
                    r.failed = r.failed + 1;
                },
            }
            r.selected = r.selected + 1;
            i = i + 1;
        }
        assert(statuses@.subrange(0, statuses@.len() as int) =~= statuses@);
        r
    }

    /// The counts as written on the standard error.
    pub fn to_string(&self) -> (r: String)
        ensures
            r@ == "selected: "@ + decimal(self.selected as nat) + ", changed: "@ + decimal(self.changed as nat)
                + ", written: "@ + decimal(self.written as nat) + ", unchanged: "@ + decimal(
                self.unchanged as nat,
            ) + ", failed: "@ + decimal(self.failed as nat),
    {
        let mut r = owned("selected: ");
        string_push_str(&mut r, usize_to_string(self.selected).as_str());
        string_push_str(&mut r, ", changed: ");
        string_push_str(&mut r, usize_to_string(self.changed).as_str());
        string_push_str(&mut r, ", written: ");
        string_push_str(&mut r, usize_to_string(self.written).as_str());
        string_push_str(&mut r, ", unchanged: ");
        string_push_str(&mut r, usize_to_string(self.unchanged).as_str());
        string_push_str(&mut r, ", failed: ");
        string_push_str(&mut r, usize_to_string(self.failed).as_str());
        r
    }
}

/// The exit status of a run: `1` when no file was selected, when a file
/// failed, or when a check finds a file that formatting would change; else
/// `0`.
pub fn exit_status(mode: Mode, s: &RunSummary) -> (r: i32)
    ensures
        r == 0 || r == 1,
        r == 1 <==> (s.selected == 0 || s.failed > 0 || (mode == Mode::Check && s.changed > 0)),
{
    if s.selected == 0 || s.failed > 0 {
        1
    } else if mode == Mode::Check && s.changed > 0 {
        1
    } else {
        0
    }
}

/// A formatted source as printed on the standard output: alone, as it is;
/// among several, after a line `==> path <==`.
pub fn output_block(path: &str, content: &str, several: bool) -> (r: String)
    ensures
        !several ==> r@ == content@,
        several ==> r@ == "==> "@ + path@ + " <==\n"@ + content@,
{
    if several {
        let mut r = concat3("==> ", path, " <==\n");
        string_push_str(&mut r, content);
        r
    } else {
        owned(content)
    }
}

} // verus!
