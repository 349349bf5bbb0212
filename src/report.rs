//! What the reporters print: the listing, and the summary of a run in
//! machine-readable mode.
use vstd::prelude::*;
use crate::node::{RunSettings, Test, TestResult};
use crate::harness::Output;
use crate::runner::{lemma_skip_set, results_of, runs_all, Outcome};

verus! {

/// The status recorded for a top-level test in machine-readable mode.
#[derive(Clone, Copy, Debug, PartialEq, Eq, Structural)]
pub enum Verdict {
    Passed,
    Failed,
    Skipped,
}

/// One entry of the machine-readable results array.
#[derive(Clone, Debug)]
pub struct JsonEntry {
    pub name: String,
    pub description: String,
    pub result: Verdict,
    pub number: usize,
}

/// The machine-readable summary of a run.
#[derive(Clone, Debug)]
pub struct Summary {
    pub tests_available: usize,
    pub tests_ran: usize,
    pub tests_passed: usize,
    pub tests_failed: usize,
    pub tests_skipped: usize,
    pub results: Vec<JsonEntry>,
}

/// The status shown at the end of a line of the text report.
#[derive(Clone, Debug)]
pub enum LineStatus {
    /// A group that ran: its subtests' lines follow.
    Header,
    /// A node that resolved to a result of its own.
    Done(TestResult),
}

/// One line of the listing: a top-level index and its description.
#[derive(Clone, Debug)]
pub struct ListLine {
    pub index: usize,
    pub description: String,
}

/// What the reporter is handed for node `t`, which resolved to `o`, at
/// `path`, in pre-order: a group that ran gives a header line and then its
/// subtests' lines; any other node gives one line with its result.
pub open spec fn lines_of(t: Test, o: Outcome, path: Seq<usize>) -> Seq<Output>
    decreases t, 0int,
{
    if t.subtests@.len() > 0 && o.subtests@.len() == t.subtests@.len() {
        seq![Output::Line(path, t.description@, LineStatus::Header)] + child_lines(
            t.subtests@,
            o.subtests@,
            path,
            t.subtests@.len() as int,
        )
    } else {
        seq![Output::Line(path, t.description@, LineStatus::Done(o.result))]
    }
}

/// The lines of the first `n` of the nodes `ts`, which resolved to `os`,
/// under `path`: the node at position `j` shows at `path` extended by `j`.
pub open spec fn child_lines(ts: Seq<Test>, os: Seq<Outcome>, path: Seq<usize>, n: int) -> Seq<
    Output,
>
    decreases ts, n,
{
    if 0 < n <= ts.len() {
        child_lines(ts, os, path, n - 1) + lines_of(ts[n - 1], os[n - 1], path.push((n - 1) as usize))
    } else {
        seq![]
    }
}

pub open spec fn verdict_of(r: TestResult) -> Verdict {
    match r {
        TestResult::Passed => Verdict::Passed,
        TestResult::Failed(_) => Verdict::Failed,
        TestResult::Skipped => Verdict::Skipped,
    }
}

/// How many of `rs` have verdict `v`.
pub open spec fn count_of(rs: Seq<TestResult>, v: Verdict) -> nat
    decreases rs.len(),
{
    if rs.len() == 0 {
        0
    } else {
        count_of(rs.drop_last(), v) + if verdict_of(rs.last()) == v {
            1nat
        } else {
            0nat
        }
    }
}

/// `s` summarizes the outcomes `outs` of the top-level `tests`.
pub open spec fn summarizes(tests: Seq<Test>, outs: Seq<Outcome>, s: Summary) -> bool {
    let rs = results_of(outs);
    &&& s.tests_available == tests.len()
    &&& s.tests_passed == count_of(rs, Verdict::Passed)
    &&& s.tests_failed == count_of(rs, Verdict::Failed)
    &&& s.tests_skipped == count_of(rs, Verdict::Skipped)
    &&& s.tests_ran == s.tests_available - s.tests_skipped
    &&& s.results@.len() == tests.len()
    &&& forall|i: int|
        0 <= i < tests.len() ==> {
            &&& (#[trigger] s.results@[i]).name@ == tests[i].name@
            &&& s.results@[i].description@ == tests[i].description@
            &&& s.results@[i].result == verdict_of(outs[i].result)
            &&& s.results@[i].number == i
        }
}

impl Verdict {
    /// The machine-readable name of the verdict.
    pub fn as_str(&self) -> (r: &'static str)
        ensures
            *self == Verdict::Passed ==> r@ == "passed"@,
            *self == Verdict::Failed ==> r@ == "failed"@,
            *self == Verdict::Skipped ==> r@ == "skipped"@,
    {
        match self {
            Verdict::Passed => "passed",
            Verdict::Failed => "failed",
            Verdict::Skipped => "skipped",
        }
    }
}

/// The verdict recorded for a result.
pub fn verdict(r: &TestResult) -> (v: Verdict)
    ensures
        v == verdict_of(*r),
{
    match r {
        TestResult::Passed => Verdict::Passed,
        TestResult::Failed(_) => Verdict::Failed,
        TestResult::Skipped => Verdict::Skipped,
    }
}

proof fn lemma_counts_bounded(rs: Seq<TestResult>)
    ensures
        count_of(rs, Verdict::Passed) + count_of(rs, Verdict::Failed) + count_of(
            rs,
            Verdict::Skipped,
        ) == rs.len(),
    decreases rs.len(),
{
    if rs.len() > 0 {
        lemma_counts_bounded(rs.drop_last());
    }
}

/// The machine-readable summary of a run: one entry per top-level test, in
/// registration order, recording a group's aggregated result, and the
/// counts of passed, failed and skipped tests.
pub fn summarize(tests: &Vec<Test>, outs: &Vec<Outcome>) -> (s: Summary)
    requires
        outs@.len() == tests@.len(),
    ensures
        summarizes(tests@, outs@, s),
{
    let mut results: Vec<JsonEntry> = Vec::new();
    let mut passed: usize = 0;
    let mut failed: usize = 0;
    let mut skipped: usize = 0;
    let mut i: usize = 0;
    while i < tests.len()
        invariant
            0 <= i <= tests@.len(),
            outs@.len() == tests@.len(),
            results@.len() == i,
            passed == count_of(results_of(outs@).take(i as int), Verdict::Passed),
            failed == count_of(results_of(outs@).take(i as int), Verdict::Failed),
            skipped == count_of(results_of(outs@).take(i as int), Verdict::Skipped),
            forall|k: int|
                0 <= k < i ==> {
                    &&& (#[trigger] results@[k]).name@ == tests@[k].name@
                    &&& results@[k].description@ == tests@[k].description@
                    &&& results@[k].result == verdict_of(outs@[k].result)
                    &&& results@[k].number == k
                },
        decreases tests@.len() - i,
    {
        let rs = Ghost(results_of(outs@));
        proof {
            assert(rs@.take(i + 1).drop_last() =~= rs@.take(i as int));
            lemma_counts_bounded(rs@.take(i as int));
        }
        let v = verdict(&outs[i].result);
        match v {
            Verdict::Passed => passed += 1,
            Verdict::Failed => failed += 1,
            Verdict::Skipped => skipped += 1,
        }
        results.push(
            JsonEntry {
                name: tests[i].name.clone(),
                description: tests[i].description.clone(),
                result: v,
                number: i,
            },
        );
        i += 1;
    }
    proof {
        assert(results_of(outs@).take(i as int) =~= results_of(outs@));
        lemma_counts_bounded(results_of(outs@));
    }
    Summary {
        tests_available: tests.len(),
        tests_ran: tests.len() - skipped,
        tests_passed: passed,
        tests_failed: failed,
        tests_skipped: skipped,
        results,
    }
}

/// In every summary, the tests that ran are those available less those
/// skipped, and each of them either passed or failed.
pub proof fn lemma_summary_counts(tests: Seq<Test>, outs: Seq<Outcome>, s: Summary)
    requires
        outs.len() == tests.len(),
        summarizes(tests, outs, s),
    ensures
        s.tests_ran == s.tests_available - s.tests_skipped,
        s.tests_passed + s.tests_failed == s.tests_ran,
{
    assert(results_of(outs).len() == tests.len());
    lemma_counts_bounded(results_of(outs));
}

/// The lines of the first `n` nodes depend on the first `n` outcomes only.
pub(crate) proof fn lemma_child_lines_prefix(
    ts: Seq<Test>,
    os1: Seq<Outcome>,
    os2: Seq<Outcome>,
    path: Seq<usize>,
    n: int,
)
    requires
        forall|j: int| 0 <= j < n ==> os1[j] == os2[j],
    ensures
        child_lines(ts, os1, path, n) == child_lines(ts, os2, path, n),
    decreases n,
{
    if 0 < n <= ts.len() {
        lemma_child_lines_prefix(ts, os1, os2, path, n - 1);
    }
}

/// The lines of the first `m` nodes begin the lines of the first `n`.
proof fn lemma_child_lines_grow(ts: Seq<Test>, os: Seq<Outcome>, path: Seq<usize>, m: int, n: int)
    requires
        0 <= m <= n <= ts.len(),
    ensures
        child_lines(ts, os, path, m).len() <= child_lines(ts, os, path, n).len(),
        child_lines(ts, os, path, n).subrange(0, child_lines(ts, os, path, m).len() as int)
            == child_lines(ts, os, path, m),
    decreases n - m,
{
    if m < n {
        lemma_child_lines_grow(ts, os, path, m, n - 1);
        let a = child_lines(ts, os, path, m);
        let b = child_lines(ts, os, path, n - 1);
        let c = child_lines(ts, os, path, n);
        assert(c == b + lines_of(ts[n - 1], os[n - 1], path.push((n - 1) as usize)));
        assert(c.subrange(0, a.len() as int) =~= b.subrange(0, a.len() as int));
    } else {
        let c = child_lines(ts, os, path, n);
        assert(c.subrange(0, c.len() as int) =~= c);
    }
}

/// Among the lines of the first `n` nodes, the first line of node `k < n`
/// stands right after the lines of the nodes before it.
proof fn lemma_child_first_line(ts: Seq<Test>, os: Seq<Outcome>, path: Seq<usize>, k: int, n: int)
    requires
        0 <= k < n <= ts.len(),
    ensures
        child_lines(ts, os, path, k).len() < child_lines(ts, os, path, n).len(),
        child_lines(ts, os, path, n)[child_lines(ts, os, path, k).len() as int] == Output::Line(
            path.push(k as usize),
            ts[k].description@,
            lines_of(ts[k], os[k], path.push(k as usize))[0]->Line_2,
        ),
{
    lemma_child_lines_grow(ts, os, path, k + 1, n);
    let a = child_lines(ts, os, path, k);
    let own = lines_of(ts[k], os[k], path.push(k as usize));
    let b = child_lines(ts, os, path, k + 1);
    let c = child_lines(ts, os, path, n);
    assert(b == a + own);
    assert(own.len() > 0);
    assert(b[a.len() as int] == own[0]);
    assert(c.subrange(0, b.len() as int)[a.len() as int] == c[a.len() as int]);
}

/// In the output of a run, the subtest at position `k` of a group that ran
/// at top-level index `i` shows its description at the path `i.k`.
pub proof fn lemma_child_path(
    tests: Seq<Test>,
    to_skip: Seq<usize>,
    outs: Seq<Outcome>,
    i: int,
    k: int,
)
    requires
        runs_all(tests, to_skip, outs),
        0 <= i < tests.len(),
        !to_skip.contains(i as usize),
        0 <= k < tests[i].subtests@.len(),
    ensures
        exists|j: int|
            0 <= j < child_lines(tests, outs, seq![], tests.len() as int).len() && (#[trigger] child_lines(
                tests,
                outs,
                seq![],
                tests.len() as int,
            )[j]) is Line && child_lines(tests, outs, seq![], tests.len() as int)[j]->Line_0 == seq![
                i as usize,
                k as usize,
            ] && child_lines(tests, outs, seq![], tests.len() as int)[j]->Line_1
                == tests[i].subtests@[k].description@,
{
    let t = tests[i];
    let o = outs[i];
    lemma_skip_set(tests, to_skip, outs, RunSettings { verbose: false, json: false });
    assert(o.subtests@.len() == t.subtests@.len());
    let top = Seq::<usize>::empty().push(i as usize);
    let n = t.subtests@.len() as int;
    let own = lines_of(t, o, top);
    let inner = child_lines(t.subtests@, o.subtests@, top, n);
    assert(own == seq![Output::Line(top, t.description@, LineStatus::Header)] + inner);
    lemma_child_first_line(t.subtests@, o.subtests@, top, k, n);
    let y = child_lines(t.subtests@, o.subtests@, top, k).len() as int;
    assert(own[y + 1] == inner[y]);
    let all = child_lines(tests, outs, seq![], tests.len() as int);
    lemma_child_lines_grow(tests, outs, seq![], i + 1, tests.len() as int);
    let before = child_lines(tests, outs, seq![], i);
    let upto = child_lines(tests, outs, seq![], i + 1);
    assert(Seq::<usize>::empty().push(i as usize) == top);
    assert(upto == before + own);
    let j = before.len() + y + 1;
    assert(upto[j] == own[y + 1]);
    assert(all.subrange(0, upto.len() as int)[j] == all[j]);
    assert(top.push(k as usize) =~= seq![i as usize, k as usize]);
    assert(all[j] is Line);
}

/// The listing: each top-level test's index and description, in order.
pub fn list_all_tests(tests: &Vec<Test>) -> (lines: Vec<ListLine>)
    ensures
        lines@.len() == tests@.len(),
        forall|i: int|
            0 <= i < tests@.len() ==> (#[trigger] lines@[i]).index == i
                && lines@[i].description@ == tests@[i].description@,
{
    let mut lines: Vec<ListLine> = Vec::new();
    let mut i: usize = 0;
    while i < tests.len()
        invariant
            0 <= i <= tests@.len(),
            lines@.len() == i,
            forall|k: int|
                0 <= k < i ==> (#[trigger] lines@[k]).index == k
                    && lines@[k].description@ == tests@[k].description@,
        decreases tests@.len() - i,
    {
        lines.push(ListLine { index: i, description: tests[i].description.clone() });
        i += 1;
    }
    lines
}

} // verus!
