//! What commands have done to commits, and how the commits are rewritten for it.

use vstd::prelude::*;
use vstd::string::StringExecFns;

use crate::backend::MergedTree;
use crate::backend::TreeIdsAndLabels;
use crate::fs_path;
use crate::fs_path::FsPath;
use crate::run;
use crate::run::CommandSpec;
use crate::run::RunJob;
use crate::text;

verus! {

/// The hexadecimal digit of a number below sixteen.
pub open spec fn hex_digit(n: nat) -> char {
    if n < 10 {
        (n + 48) as char
    } else {
        (n + 87) as char
    }
}

/// Bytes written with hexadecimal digits.
pub open spec fn hex(bytes: Seq<u8>) -> Seq<char>
    decreases bytes.len(),
{
    if bytes.len() == 0 {
        Seq::empty()
    } else {
        hex(bytes.drop_last()) + seq![
            hex_digit((bytes.last() / 16) as nat),
            hex_digit((bytes.last() % 16) as nat),
        ]
    }
}

fn hex_char(n: u8) -> (r: char)
    requires
        n < 16,
    ensures
        r == hex_digit(n as nat),
{
    if n < 10 {
        (n + 48) as char
    } else {
        (n + 87) as char
    }
}

/// Writes an id with hexadecimal digits.
pub fn hex_text(bytes: &Vec<u8>) -> (r: String)
    ensures
        r@ == hex(bytes@),
{
    let mut out = String::new();
    let mut i: usize = 0;
    assert(bytes@.take(0) =~= Seq::empty());
    while i < bytes.len()
        invariant
            i <= bytes@.len(),
            out@ == hex(bytes@.take(i as int)),
        decreases bytes@.len() - i,
    {
        proof {
            assert(bytes@.take(i + 1).drop_last() =~= bytes@.take(i as int));
            assert(bytes@.take(i + 1).last() == bytes@[i as int]);
        }
        let byte = bytes[i];
        out.push(hex_char(byte / 16));
        out.push(hex_char(byte % 16));
        assert(out@ =~= hex(bytes@.take(i + 1)));
        i += 1;
    }
    assert(bytes@.take(i as int) =~= bytes@);
    out
}

/// Different ids of the same length are written differently.
pub proof fn lemma_hex_injective(a: Seq<u8>, b: Seq<u8>)
    requires
        a.len() == b.len(),
        hex(a) == hex(b),
    ensures
        a == b,
    decreases a.len(),
{
    if a.len() > 0 {
        let (fa, fb) = (hex(a.drop_last()), hex(b.drop_last()));
        let (x, y) = (a.last(), b.last());
        lemma_hex_len(a);
        lemma_hex_len(b);
        lemma_hex_len(a.drop_last());
        lemma_hex_len(b.drop_last());
        let n = fa.len() as int;
        assert(hex(a)[n] == hex_digit((x / 16) as nat));
        assert(hex(b)[n] == hex_digit((y / 16) as nat));
        assert(hex(a)[n + 1] == hex_digit((x % 16) as nat));
        assert(hex(b)[n + 1] == hex_digit((y % 16) as nat));
        lemma_hex_digit((x / 16) as nat, (y / 16) as nat);
        lemma_hex_digit((x % 16) as nat, (y % 16) as nat);
        assert(x == y);
        assert(fa =~= hex(a).subrange(0, n));
        assert(fb =~= hex(b).subrange(0, n));
        lemma_hex_injective(a.drop_last(), b.drop_last());
        assert(a =~= a.drop_last().push(x));
        assert(b =~= b.drop_last().push(y));
    } else {
        assert(a =~= b);
    }
}

proof fn lemma_hex_len(bytes: Seq<u8>)
    ensures
        hex(bytes).len() == 2 * bytes.len(),
    decreases bytes.len(),
{
    if bytes.len() > 0 {
        lemma_hex_len(bytes.drop_last());
    }
}

proof fn lemma_hex_digit(m: nat, n: nat)
    requires
        m < 16,
        n < 16,
        hex_digit(m) == hex_digit(n),
    ensures
        m == n,
{
    assert(hex_digit(m) as int == if m < 10 {
        m + 48
    } else {
        m + 87
    });
    assert(hex_digit(n) as int == if n < 10 {
        n + 48
    } else {
        n + 87
    });
}

/// A command has failed.
#[derive(Debug)]
pub struct CommandFailure {
    pub message: String,
}

/// What to show of a job.
#[derive(Debug)]
pub struct JobReport {
    /// Tells that the commit was skipped.
    pub skip_message: Option<String>,
    /// What the command wrote to its stdout.
    pub stdout: Vec<u8>,
    /// What the command wrote to its stderr.
    pub stderr: Vec<u8>,
    /// Why all work ends here.
    pub failure: Option<CommandFailure>,
}

/// A commit that a command has changed.
#[derive(Debug)]
pub struct RewrittenCommit {
    pub old_id: Vec<u8>,
    pub old_tree: MergedTree,
    pub new_tree: Vec<u8>,
}

/// The commits that commands have changed.
#[derive(Debug)]
pub struct Rewrites {
    pub entries: Vec<RewrittenCommit>,
}

/// What was recorded last for a commit.
pub open spec fn recorded_for(entries: Seq<RewrittenCommit>, old_id: Seq<u8>) -> Option<
    RewrittenCommit,
>
    decreases entries.len(),
{
    if entries.len() == 0 {
        None
    } else if entries.last().old_id@ == old_id {
        Some(entries.last())
    } else {
        recorded_for(entries.drop_last(), old_id)
    }
}

/// Tells that a commit was skipped.
pub open spec fn skip_text(old_id: Seq<u8>, subdir: Seq<fs_path::FsPart>, separator: char) -> Seq<
    char,
> {
    "Skipped commit "@ + hex(old_id) + ": directory does not exist: "@ + fs_path::path_text(
        subdir,
        separator,
    )
}

/// Tells that a command has failed.
pub open spec fn failure_text(command: Seq<char>, status: Seq<char>, old_id: Seq<u8>) -> Seq<char> {
    "the command '"@ + command + "' failed with "@ + status + " for commit "@ + hex(old_id)
}

/// The directory of a command, where it has one.
pub open spec fn spec_subdir(spec: CommandSpec) -> Seq<fs_path::FsPart> {
    match spec.subdir {
        Some(subdir) => subdir@,
        None => Seq::empty(),
    }
}

/// Whether a job has changed its commit.
pub open spec fn changes_commit(job: RunJob) -> bool {
    &&& !job.skipped
    &&& !(job.status matches Some(status) && !status.success)
    &&& job.dirty
    &&& job.new_tree is Some
}

impl Rewrites {
    pub fn new() -> (r: Rewrites)
        ensures
            r.entries@.len() == 0,
    {
        Rewrites { entries: Vec::new() }
    }

    pub fn is_empty(&self) -> (r: bool)
        ensures
            r == (self.entries@.len() == 0),
    {
        self.entries.len() == 0
    }

    /// Records what a job has done, and tells what to show of it. A command that has
    /// failed ends all work, and what it did is not recorded.
    pub fn process_job(&mut self, job: RunJob, spec: &CommandSpec, separator: char) -> (r:
        JobReport)
        ensures
            match r.skip_message {
                Some(message) => job.skipped && message@ == skip_text(
                    job.old_id@,
                    spec_subdir(*spec),
                    separator,
                ),
                None => !job.skipped,
            },
            r.stdout@ == if !job.skipped && job.status is Some {
                job.stdout@
            } else {
                Seq::empty()
            },
            r.stderr@ == if !job.skipped && job.status is Some {
                job.stderr@
            } else {
                Seq::empty()
            },
            match r.failure {
                Some(failure) => {
                    &&& !job.skipped
                    &&& job.status matches Some(status)
                    &&& !status.success
                    &&& failure.message@ == failure_text(
                        run::command_line(spec.program@, spec.args@),
                        status.text@,
                        job.old_id@,
                    )
                },
                None => job.skipped || job.status is None || job.status->0.success,
            },
            if changes_commit(job) {
                final(self).entries@ == old(self).entries@.push(
                    RewrittenCommit {
                        old_id: job.old_id,
                        old_tree: job.old_tree,
                        new_tree: job.new_tree->0,
                    },
                )
            } else {
                *final(self) == *old(self)
            },
    {
        if job.skipped {
            let mut message = "Skipped commit ".to_string();
            message.append(hex_text(&job.old_id).as_str());
            message.append(": directory does not exist: ");
            let shown = match &spec.subdir {
                Some(subdir) => subdir.display(separator),
                None => FsPath::new().display(separator),
            };
            message.append(shown.as_str());
            return JobReport {
                skip_message: Some(message),
                stdout: Vec::new(),
                stderr: Vec::new(),
                failure: None,
            };
        }
        let mut report = JobReport {
            skip_message: None,
            stdout: Vec::new(),
            stderr: Vec::new(),
            failure: None,
        };
        if let Some(status) = job.status {
            // Emit the subprocess's captured streams.
            report.stdout = job.stdout;
            report.stderr = job.stderr;
            if !status.success {
                let mut message = "the command '".to_string();
                message.append(spec.to_text().as_str());
                message.append("' failed with ");
                message.append(status.text.as_str());
                message.append(" for commit ");
                message.append(hex_text(&job.old_id).as_str());
                report.failure = Some(CommandFailure { message });
                return report;
            }
        }
        if job.dirty {
            if let Some(new_tree) = job.new_tree {
                self.entries.push(
                    RewrittenCommit { old_id: job.old_id, old_tree: job.old_tree, new_tree },
                );
            }
        }
        report
    }

    /// What was recorded last for a commit.
    pub fn get(&self, old_id: &Vec<u8>) -> (r: Option<&RewrittenCommit>)
        ensures
            match r {
                Some(entry) => recorded_for(self.entries@, old_id@) == Some(*entry),
                None => recorded_for(self.entries@, old_id@) is None,
            },
    {
        let ghost all = self.entries@;
        let mut i: usize = self.entries.len();
        assert(all.take(i as int) =~= all);
        while i > 0
            invariant
                i <= all.len(),
                all == self.entries@,
                recorded_for(all, old_id@) == recorded_for(all.take(i as int), old_id@),
            decreases i,
        {
            i -= 1;
            proof {
                assert(all.take(i + 1).drop_last() =~= all.take(i as int));
                assert(all.take(i + 1).last() == all[i as int]);
            }
            if fs_path::same_bytes(&self.entries[i].old_id, old_id) {
                return Some(&self.entries[i]);
            }
        }
        assert(all.take(0).len() == 0);
        None
    }
}

/// What the sides and the base of a merge are called, in the order in which they are
/// merged, when the diff that a command introduced is applied to a rebased commit.
pub open spec fn change_labels() -> Seq<Seq<char>> {
    seq!["command result"@, "original commit"@, "rebased"@]
}

/// The trees that are merged to apply the diff that a command introduced (new tree - old
/// tree) on top of a rebased tree, with what they are called in conflicts.
pub fn change_terms(
    new_tree: &Vec<u8>,
    old_tree: &MergedTree,
    rebased_tree: MergedTree,
) -> (r: Vec<(MergedTree, String)>)
    ensures
        r@.len() == 3,
        r@[0].0@ == (TreeIdsAndLabels { tree_ids: seq![new_tree@], labels: Seq::empty() }),
        r@[1].0@ == old_tree@,
        r@[2].0 == rebased_tree,
        r@.map_values(|term: (MergedTree, String)| term.1@) == change_labels(),
{
    let mut terms: Vec<(MergedTree, String)> = Vec::new();
    terms.push((MergedTree::resolved(fs_path::copy_bytes(new_tree)), "command result".to_string()));
    terms.push((old_tree.duplicate(), "original commit".to_string()));
    terms.push((rebased_tree, "rebased".to_string()));
    assert(terms@.map_values(|term: (MergedTree, String)| term.1@) =~= change_labels());
    terms
}

/// How a commit is rewritten.
#[derive(Debug)]
pub enum RewriteAction<'a> {
    /// Rebase the commit, and give it the result of the command as its tree, ignoring
    /// rewrites of its ancestors.
    ReplaceTree { new_tree: &'a Vec<u8> },
    /// Rebase the commit, and apply the diff the command introduced (new tree - old
    /// tree) on top of the rebased tree: see [`change_terms`].
    MergeChange { new_tree: &'a Vec<u8>, old_tree: &'a MergedTree },
    /// Put the commit on its new parents with the content that it has.
    Reparent,
    /// Rebase the commit, propagating the diff of its ancestors.
    Rebase,
}

/// The rewriting of commits and their descendants.
pub struct RewriteRun<'a> {
    pub rewrites: &'a Rewrites,
    pub restore_descendants: bool,
    /// How many commits were given the result of a command.
    pub count: u32,
    /// How many commits were put on new parents with the content that they had.
    pub num_reparented: u32,
}

impl<'a> RewriteRun<'a> {
    pub fn new(rewrites: &'a Rewrites, restore_descendants: bool) -> (r: RewriteRun<'a>)
        ensures
            r.rewrites == rewrites,
            r.restore_descendants == restore_descendants,
            r.count == 0,
            r.num_reparented == 0,
    {
        RewriteRun { rewrites, restore_descendants, count: 0, num_reparented: 0 }
    }

    /// Decides how the next commit is rewritten.
    pub fn next_commit(&mut self, old_id: &Vec<u8>) -> (r: RewriteAction<'a>)
        requires
            old(self).count < u32::MAX,
            old(self).num_reparented < u32::MAX,
        ensures
            final(self).rewrites == old(self).rewrites,
            final(self).restore_descendants == old(self).restore_descendants,
            match recorded_for(old(self).rewrites.entries@, old_id@) {
                Some(entry) => {
                    &&& if old(self).restore_descendants {
                        r matches RewriteAction::ReplaceTree { new_tree } && *new_tree
                            == entry.new_tree
                    } else {
                        r matches RewriteAction::MergeChange { new_tree, old_tree } && *new_tree
                            == entry.new_tree && *old_tree == entry.old_tree
                    }
                    &&& final(self).count == old(self).count + 1
                    &&& final(self).num_reparented == old(self).num_reparented
                },
                None => {
                    &&& if old(self).restore_descendants {
                        r is Reparent
                    } else {
                        r is Rebase
                    }
                    &&& final(self).count == old(self).count
                    &&& final(self).num_reparented == old(self).num_reparented + if old(
                        self,
                    ).restore_descendants {
                        1int
                    } else {
                        0
                    }
                },
            },
    {
        let rewrites = self.rewrites;
        match rewrites.get(old_id) {
            Some(entry) => {
                self.count = self.count + 1;
                if self.restore_descendants {
                    RewriteAction::ReplaceTree { new_tree: &entry.new_tree }
                } else {
                    RewriteAction::MergeChange {
                        new_tree: &entry.new_tree,
                        old_tree: &entry.old_tree,
                    }
                }
            },
            None => if self.restore_descendants {
                // Descendant outside the run set: keep its content.
                self.num_reparented = self.num_reparented + 1;
                RewriteAction::Reparent
            } else {
                // Default: propagate the diff into descendants.
                RewriteAction::Rebase
            },
        }
    }

    /// Tells how many commits were rewritten.
    pub fn rewritten_message(&self) -> (r: String)
        ensures
            r@ == "Rewrote "@ + text::decimal(self.count as nat) + " commits"@,
    {
        let mut message = "Rewrote ".to_string();
        message.append(text::decimal_text(self.count as u64).as_str());
        message.append(" commits");
        message
    }

    /// Tells how many descendants kept their content, if any did.
    pub fn reparented_message(&self) -> (r: Option<String>)
        ensures
            match r {
                Some(message) => {
                    &&& self.restore_descendants && self.num_reparented > 0
                    &&& message@ == "Rebased "@ + text::decimal(self.num_reparented as nat)
                        + " descendant commits (while preserving their content)"@
                },
                None => !(self.restore_descendants && self.num_reparented > 0),
            },
    {
        if self.restore_descendants && self.num_reparented > 0 {
            let mut message = "Rebased ".to_string();
            message.append(text::decimal_text(self.num_reparented as u64).as_str());
            message.append(" descendant commits (while preserving their content)");
            Some(message)
        } else {
            None
        }
    }

    /// Describes the operation.
    pub fn description(&self) -> (r: String)
        ensures
            r@ == if self.rewrites.entries@.len() == 0 {
                "run: nothing changed"@
            } else {
                "run: rewrite "@ + text::decimal(self.count as nat) + " commits"@
            },
    {
        if self.rewrites.is_empty() {
            return "run: nothing changed".to_string();
        }
        let mut message = "run: rewrite ".to_string();
        message.append(text::decimal_text(self.count as u64).as_str());
        message.append(" commits");
        message
    }
}

} // verus!
