//! The harness's hold on its collaborators: the check runner and the
//! reporter, with a record of every check it ran and everything it
//! reported, in order.
use vstd::prelude::*;
use crate::node::{Check, RunSettings, TestResult};
use crate::report::{LineStatus, ListLine, Summary};

verus! {

/// The capability that performs leaf checks. Implementations may do any
/// work they like (system calls, subprocesses, sleeping); the harness
/// treats them as opaque and reports what they return verbatim.
pub trait Checkable {
    fn execute(&mut self, check: Check, settings: &RunSettings) -> TestResult;
}

/// Where output goes. For each node the runner visits it calls `begin` as it
/// reaches the node, then `open_group` if the node is a group about to run
/// its subtests, or `finish` with the node's own result otherwise. The
/// driver hands over each line of a listing, and the summary of each run
/// once it is complete. A text reporter prints nodes and listings as they
/// come; a machine-readable one prints listings and summaries.
pub trait Reporter {
    fn begin(&mut self, path: &Vec<usize>, description: &String);

    fn open_group(&mut self);

    fn finish(&mut self, result: &TestResult);

    fn listed(&mut self, line: &ListLine);

    fn summary(&mut self, summary: &Summary);
}

/// One thing handed to the reporter: a node's line (its path, description
/// and status), a line of a listing, or the summary of a run.
pub enum Output {
    Line(Seq<usize>, Seq<char>, LineStatus),
    Listed(usize, Seq<char>),
    Summary(Summary),
}

/// A check runner and a reporter, with a record of the checks run (each
/// with the settings handed to it and what it returned) and of the output
/// handed over.
pub struct Harness<C, R> {
    checks: C,
    out: R,
    calls: Ghost<Seq<(Check, RunSettings, TestResult)>>,
    outputs: Ghost<Seq<Output>>,
    pending: Ghost<Option<(Seq<usize>, Seq<char>)>>,
}

impl<C: Checkable, R: Reporter> Harness<C, R> {
    /// Every check run so far, with the settings it was given and what it
    /// returned, in order.
    pub closed spec fn calls(&self) -> Seq<(Check, RunSettings, TestResult)> {
        self.calls@
    }

    /// Everything handed to the reporter so far, in order.
    pub closed spec fn outputs(&self) -> Seq<Output> {
        self.outputs@
    }

    /// The node whose line was begun and not yet completed, if any.
    pub closed spec fn pending(&self) -> Option<(Seq<usize>, Seq<char>)> {
        self.pending@
    }

    /// The line that completing the pending node with `status` writes.
    pub open spec fn pending_line(&self, status: LineStatus) -> Output {
        match self.pending() {
            Some((path, description)) => Output::Line(path, description, status),
            None => Output::Line(seq![], seq![], status),
        }
    }

    /// No node's line is half written.
    pub open spec fn idle(&self) -> bool {
        self.pending() is None
    }

    pub fn new(checks: C, out: R) -> (h: Self)
        ensures
            h.calls() == Seq::<(Check, RunSettings, TestResult)>::empty(),
            h.outputs() == Seq::<Output>::empty(),
            h.idle(),
    {
        Harness {
            checks,
            out,
            calls: Ghost(Seq::empty()),
            outputs: Ghost(Seq::empty()),
            pending: Ghost(Option::None),
        }
    }

    pub fn checks(&self) -> &C {
        &self.checks
    }

    pub fn reporter(&self) -> &R {
        &self.out
    }

    /// Runs `check` and records it with its result.
    pub(crate) fn execute(&mut self, check: Check, settings: &RunSettings) -> (r: TestResult)
        ensures
            final(self).calls() == old(self).calls().push((check, *settings, r)),
            final(self).outputs() == old(self).outputs(),
            final(self).pending() == old(self).pending(),
    {
        let r = self.checks.execute(check, settings);
        proof {
            self.calls@ = self.calls@.push((check, *settings, r));
        }
        r
    }

    /// Starts the line of the node at `path`.
    pub(crate) fn begin(&mut self, path: &Vec<usize>, description: &String)
        ensures
            final(self).calls() == old(self).calls(),
            final(self).outputs() == old(self).outputs(),
            final(self).pending() == Some((path@, description@)),
    {
        self.out.begin(path, description);
        proof {
            self.pending@ = Some((path@, description@));
        }
    }

    /// Completes the pending line as a group's header.
    pub(crate) fn open_group(&mut self)
        requires
            old(self).pending() is Some,
        ensures
            final(self).calls() == old(self).calls(),
            final(self).outputs() == old(self).outputs().push(
                old(self).pending_line(LineStatus::Header),
            ),
            final(self).idle(),
    {
        self.out.open_group();
        proof {
            let (path, description) = self.pending@->0;
            self.outputs@ = self.outputs@.push(Output::Line(path, description, LineStatus::Header));
            self.pending@ = None;
        }
    }

    /// Completes the pending line with the node's own result.
    pub(crate) fn finish(&mut self, result: &TestResult)
        requires
            old(self).pending() is Some,
        ensures
            final(self).calls() == old(self).calls(),
            final(self).outputs() == old(self).outputs().push(
                old(self).pending_line(LineStatus::Done(*result)),
            ),
            final(self).idle(),
    {
        self.out.finish(result);
        proof {
            let (path, description) = self.pending@->0;
            self.outputs@ = self.outputs@.push(
                Output::Line(path, description, LineStatus::Done(*result)),
            );
            self.pending@ = None;
        }
    }

    /// Hands over one line of a listing.
    pub(crate) fn listed(&mut self, line: &ListLine)
        ensures
            final(self).calls() == old(self).calls(),
            final(self).outputs() == old(self).outputs().push(
                Output::Listed(line.index, line.description@),
            ),
            final(self).pending() == old(self).pending(),
    {
        self.out.listed(line);
        proof {
            self.outputs@ = self.outputs@.push(Output::Listed(line.index, line.description@));
        }
    }

    /// Hands over the summary of a run.
    pub(crate) fn summary(&mut self, summary: &Summary)
        ensures
            final(self).calls() == old(self).calls(),
            final(self).outputs() == old(self).outputs().push(Output::Summary(*summary)),
            final(self).pending() == old(self).pending(),
    {
        self.out.summary(summary);
        proof {
            self.outputs@ = self.outputs@.push(Output::Summary(*summary));
        }
    }
}

} // verus!
