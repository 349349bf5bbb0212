//! Recursive execution of the test tree against a skip-set.
use vstd::prelude::*;
use crate::harness::{Checkable, Harness, Output, Reporter};
use crate::node::{builtin_gives, extend_path, is_builtin, Check, RunSettings, Test, TestResult};
use crate::registry::builtin_result;
use crate::report::{child_lines, lemma_child_lines_prefix, lines_of, LineStatus};

verus! {

/// What running one node produced: its result and, for a group that ran,
/// one outcome per subtest, in order.
#[derive(Debug)]
pub struct Outcome {
    pub result: TestResult,
    pub subtests: Vec<Outcome>,
}

/// The results of a sequence of outcomes.
pub open spec fn results_of(os: Seq<Outcome>) -> Seq<TestResult> {
    os.map_values(|o: Outcome| o.result)
}

/// At least one of the results is a failure.
pub open spec fn any_failed(rs: Seq<TestResult>) -> bool {
    exists|i: int| 0 <= i < rs.len() && (#[trigger] rs[i]) is Failed
}

/// `r` is the aggregate of `rs`: a failure with an empty reason if any of
/// them failed, a pass otherwise (skipped children count for nothing).
pub open spec fn aggregates(rs: Seq<TestResult>, r: TestResult) -> bool {
    if any_failed(rs) {
        r is Failed && r->Failed_0@.len() == 0
    } else {
        r is Passed
    }
}

/// `o` has the shape of what running `t` yields: a skipped node is
/// `Skipped` with nothing run beneath it; a leaf has no subtest outcomes
/// and, if its check is built in, that check's fixed result (any other
/// leaf's result is tied to its check by `calls_of`); a group runs every
/// subtest unskipped, in order, and aggregates their results.
pub open spec fn runs_as(t: Test, skip: bool, o: Outcome) -> bool
    decreases t,
{
    if skip {
        o.result is Skipped && o.subtests@.len() == 0
    } else if t.subtests@.len() == 0 {
        o.subtests@.len() == 0 && (is_builtin(t.check) ==> builtin_gives(t.check, o.result))
    } else {
        &&& o.subtests@.len() == t.subtests@.len()
        &&& forall|k: int|
            0 <= k < t.subtests@.len() ==> runs_as(
                #[trigger] t.subtests@[k],
                false,
                o.subtests@[k],
            )
        &&& aggregates(results_of(o.subtests@), o.result)
    }
}

/// A group whose subtests all ran as they should and whose result
/// aggregates theirs ran as it should.
proof fn lemma_group_runs(t: Test, o: Outcome)
    requires
        t.subtests@.len() > 0,
        o.subtests@.len() == t.subtests@.len(),
        forall|k: int| 0 <= k < t.subtests@.len() ==> runs_as(#[trigger] t.subtests@[k], false, o.subtests@[k]),
        aggregates(results_of(o.subtests@), o.result),
    ensures
        runs_as(t, false, o),
{
}

/// `outs` is what running the top-level `tests` against `to_skip` yields:
/// one outcome per test, skipped exactly where its index is in `to_skip`.
pub open spec fn runs_all(tests: Seq<Test>, to_skip: Seq<usize>, outs: Seq<Outcome>) -> bool {
    &&& outs.len() == tests.len()
    &&& forall|i: int|
        0 <= i < tests.len() ==> #[trigger] runs_as(
            tests[i],
            to_skip.contains(i as usize),
            outs[i],
        )
}

/// The checks that running `t` (skipped or not) with settings `s` hands to
/// the check runner, each with `s` and what it returned, in pre-order: none
/// when skipped; a leaf's own check, whose result is the leaf's, unless it
/// is built in; for a group, its subtests' checks in order (a group's own
/// check never runs).
pub open spec fn calls_of(t: Test, skip: bool, o: Outcome, s: RunSettings) -> Seq<
    (Check, RunSettings, TestResult),
>
    decreases t, 0int,
{
    if skip {
        seq![]
    } else if t.subtests@.len() == 0 {
        if is_builtin(t.check) {
            seq![]
        } else {
            seq![(t.check, s, o.result)]
        }
    } else {
        child_calls(t.subtests@, o.subtests@, t.subtests@.len() as int, s)
    }
}

/// The checks that running the first `n` of `ts` unskipped runs.
pub open spec fn child_calls(ts: Seq<Test>, os: Seq<Outcome>, n: int, s: RunSettings) -> Seq<
    (Check, RunSettings, TestResult),
>
    decreases ts, n,
{
    if 0 < n <= ts.len() {
        child_calls(ts, os, n - 1, s) + calls_of(ts[n - 1], false, os[n - 1], s)
    } else {
        seq![]
    }
}

/// The checks that running the first `n` top-level `tests` against
/// `to_skip` runs.
pub open spec fn top_calls(
    tests: Seq<Test>,
    to_skip: Seq<usize>,
    os: Seq<Outcome>,
    n: int,
    s: RunSettings,
) -> Seq<(Check, RunSettings, TestResult)>
    decreases n,
{
    if 0 < n <= tests.len() {
        top_calls(tests, to_skip, os, n - 1, s) + calls_of(
            tests[n - 1],
            to_skip.contains((n - 1) as usize),
            os[n - 1],
            s,
        )
    } else {
        seq![]
    }
}

proof fn lemma_child_calls_prefix(
    ts: Seq<Test>,
    os1: Seq<Outcome>,
    os2: Seq<Outcome>,
    n: int,
    s: RunSettings,
)
    requires
        forall|j: int| 0 <= j < n ==> os1[j] == os2[j],
    ensures
        child_calls(ts, os1, n, s) == child_calls(ts, os2, n, s),
    decreases n,
{
    if 0 < n <= ts.len() {
        lemma_child_calls_prefix(ts, os1, os2, n - 1, s);
    }
}

proof fn lemma_top_calls_prefix(
    tests: Seq<Test>,
    to_skip: Seq<usize>,
    os1: Seq<Outcome>,
    os2: Seq<Outcome>,
    n: int,
    s: RunSettings,
)
    requires
        forall|j: int| 0 <= j < n ==> os1[j] == os2[j],
    ensures
        top_calls(tests, to_skip, os1, n, s) == top_calls(tests, to_skip, os2, n, s),
    decreases n,
{
    if 0 < n <= tests.len() {
        lemma_top_calls_prefix(tests, to_skip, os1, os2, n - 1, s);
    }
}

/// Runs one node, shown at `path`: returns `Skipped` at once when asked to
/// skip, runs the check of a leaf, and runs and aggregates the subtests of
/// a group (whose own check is never run), each at `path` extended by its
/// position. Each node's line goes to the reporter as the node is reached
/// and resolved.
pub fn run_single_test<C: Checkable, R: Reporter>(
    test: &Test,
    should_skip: bool,
    path: &Vec<usize>,
    settings: &RunSettings,
    h: &mut Harness<C, R>,
) -> (o: Outcome)
    requires
        old(h).idle(),
    ensures
        runs_as(*test, should_skip, o),
        final(h).calls() == old(h).calls() + calls_of(*test, should_skip, o, *settings),
        final(h).outputs() == old(h).outputs() + lines_of(*test, o, path@),
        final(h).idle(),
    decreases test,
{
    let ghost c0 = h.calls();
    let ghost o0 = h.outputs();
    h.begin(path, &test.description);
    if should_skip {
        let r = TestResult::Skipped;
        h.finish(&r);
        let o = Outcome { result: r, subtests: Vec::new() };
        assert(h.calls() =~= c0 + calls_of(*test, should_skip, o, *settings));
        assert(h.outputs() =~= o0 + lines_of(*test, o, path@));
        return o;
    }
    if test.subtests.len() == 0 {
        let r = match builtin_result(test.check) {
            Some(r) => r,
            None => h.execute(test.check, settings),
        };
        h.finish(&r);
        let o = Outcome { result: r, subtests: Vec::new() };
        assert(h.calls() =~= c0 + calls_of(*test, should_skip, o, *settings));
        assert(h.outputs() =~= o0 + lines_of(*test, o, path@));
        return o;
    }
    h.open_group();
    let ghost head = h.outputs();
    assert(head == o0.push(Output::Line(path@, test.description@, LineStatus::Header)));
    let mut outs: Vec<Outcome> = Vec::new();
    let mut failed = false;
    let mut i: usize = 0;
    while i < test.subtests.len()
        invariant
            0 <= i <= test.subtests@.len(),
            outs@.len() == i,
            forall|k: int| 0 <= k < i ==> #[trigger] runs_as(test.subtests@[k], false, outs@[k]),
            failed == any_failed(results_of(outs@)),
            h.idle(),
            h.calls() == c0 + child_calls(test.subtests@, outs@, i as int, *settings),
            h.outputs() == head + child_lines(test.subtests@, outs@, path@, i as int),
        decreases test.subtests@.len() - i,
    {
        let p = extend_path(path, i);
        let o = run_single_test(&test.subtests[i], false, &p, settings, h);
        let f = o.result.is_failed();
        proof {
            let rs = results_of(outs@);
            let rs2 = results_of(outs@.push(o));
            assert(rs2 =~= rs.push(o.result));
            if f {
                assert(rs2[i as int] is Failed);
            }
            if failed {
                let j = choose|j: int| 0 <= j < rs.len() && (#[trigger] rs[j]) is Failed;
                assert(rs2[j] is Failed);
            }
            let ts = test.subtests@;
            let os2 = outs@.push(o);
            lemma_child_calls_prefix(ts, outs@, os2, i as int, *settings);
            lemma_child_lines_prefix(ts, outs@, os2, path@, i as int);
            assert(child_calls(ts, os2, i + 1, *settings) == child_calls(
                ts,
                os2,
                i as int,
                *settings,
            ) + calls_of(ts[i as int], false, o, *settings));
            assert(h.calls() =~= c0 + child_calls(ts, os2, i + 1, *settings));
            assert(child_lines(ts, os2, path@, i + 1) == child_lines(ts, os2, path@, i as int)
                + lines_of(ts[i as int], o, p@));
            assert(h.outputs() =~= head + child_lines(ts, os2, path@, i + 1));
        }
        if f {
            failed = true;
        }
        outs.push(o);
        i += 1;
    }
    let result = if failed {
        TestResult::Failed(String::new())
    } else {
        TestResult::Passed
    };
    let o = Outcome { result, subtests: outs };
    proof {
        lemma_group_runs(*test, o);
        assert(h.calls() =~= c0 + calls_of(*test, should_skip, o, *settings));
        assert(h.outputs() =~= o0 + lines_of(*test, o, path@));
    }
    o
}

/// Whether `index` is in `to_skip`.
fn skip_contains(to_skip: &Vec<usize>, index: usize) -> (r: bool)
    ensures
        r == to_skip@.contains(index),
{
    let mut i: usize = 0;
    while i < to_skip.len()
        invariant
            0 <= i <= to_skip@.len(),
            forall|k: int| 0 <= k < i ==> to_skip@[k] != index,
        decreases to_skip@.len() - i,
    {
        if to_skip[i] == index {
            return true;
        }
        i += 1;
    }
    false
}

/// Runs every top-level test in registration order, at the path of its
/// index, skipping those whose index is in `to_skip` (indices out of range
/// never match anything).
pub fn run_all_tests<C: Checkable, R: Reporter>(
    tests: &Vec<Test>,
    to_skip: &Vec<usize>,
    settings: &RunSettings,
    h: &mut Harness<C, R>,
) -> (outs: Vec<Outcome>)
    requires
        old(h).idle(),
    ensures
        runs_all(tests@, to_skip@, outs@),
        final(h).calls() == old(h).calls() + top_calls(
            tests@,
            to_skip@,
            outs@,
            tests@.len() as int,
            *settings,
        ),
        final(h).outputs() == old(h).outputs() + child_lines(
            tests@,
            outs@,
            seq![],
            tests@.len() as int,
        ),
        final(h).idle(),
{
    let ghost c0 = h.calls();
    let ghost o0 = h.outputs();
    let mut outs: Vec<Outcome> = Vec::new();
    let root: Vec<usize> = Vec::new();
    let mut i: usize = 0;
    while i < tests.len()
        invariant
            0 <= i <= tests@.len(),
            outs@.len() == i,
            root@ == Seq::<usize>::empty(),
            forall|k: int|
                0 <= k < i ==> #[trigger] runs_as(
                    tests@[k],
                    to_skip@.contains(k as usize),
                    outs@[k],
                ),
            h.idle(),
            h.calls() == c0 + top_calls(tests@, to_skip@, outs@, i as int, *settings),
            h.outputs() == o0 + child_lines(tests@, outs@, seq![], i as int),
        decreases tests@.len() - i,
    {
        let skip = skip_contains(to_skip, i);
        let p = extend_path(&root, i);
        let o = run_single_test(&tests[i], skip, &p, settings, h);
        proof {
            let os2 = outs@.push(o);
            lemma_top_calls_prefix(tests@, to_skip@, outs@, os2, i as int, *settings);
            lemma_child_lines_prefix(tests@, outs@, os2, seq![], i as int);
            assert(to_skip@.contains(((i + 1) - 1) as usize) == skip);
            assert(h.calls() =~= c0 + top_calls(tests@, to_skip@, os2, i + 1, *settings));
            assert(Seq::<usize>::empty().push(i) == p@);
            assert(h.outputs() =~= o0 + child_lines(tests@, os2, seq![], i + 1));
        }
        outs.push(o);
        i += 1;
    }
    outs
}

/// Whatever the skip-set and the tests: each test whose index is in the set
/// resolves to `Skipped`, runs no check and shows one line, and every other
/// test runs as it would with no skip-set at all.
pub proof fn lemma_skip_set(tests: Seq<Test>, to_skip: Seq<usize>, outs: Seq<Outcome>, s: RunSettings)
    requires
        runs_all(tests, to_skip, outs),
    ensures
        forall|i: int|
            0 <= i < tests.len() && to_skip.contains(i as usize) ==> (#[trigger] outs[i]).result is Skipped
                && outs[i].subtests@.len() == 0 && calls_of(tests[i], true, outs[i], s).len() == 0
                && lines_of(tests[i], outs[i], seq![i as usize]) == seq![
                Output::Line(seq![i as usize], tests[i].description@, LineStatus::Done(TestResult::Skipped)),
            ],
        forall|i: int|
            0 <= i < tests.len() && !to_skip.contains(i as usize) ==> runs_as(
                tests[i],
                false,
                #[trigger] outs[i],
            ),
{
    assert forall|i: int| 0 <= i < tests.len() implies runs_as(
        tests[i],
        to_skip.contains(i as usize),
        #[trigger] outs[i],
    ) by {}
}
/// A group that ran fails, with an empty reason, exactly when at least one
/// of its subtests failed, and passes otherwise, however many were skipped.
pub proof fn lemma_group_aggregate(g: Test, o: Outcome)
    requires
        g.subtests@.len() > 0,
        runs_as(g, false, o),
    ensures
        (o.result is Failed) <==> (exists|k: int|
            0 <= k < o.subtests@.len() && (#[trigger] o.subtests@[k]).result is Failed),
        o.result is Failed ==> o.result->Failed_0@.len() == 0,
        o.result is Failed || o.result is Passed,
{
    let rs = results_of(o.subtests@);
    if exists|k: int| 0 <= k < o.subtests@.len() && (#[trigger] o.subtests@[k]).result is Failed {
        let k = choose|k: int| 0 <= k < o.subtests@.len() && (#[trigger] o.subtests@[k]).result is Failed;
        assert(rs[k] is Failed);
    }
    if any_failed(rs) {
        let k = choose|k: int| 0 <= k < rs.len() && (#[trigger] rs[k]) is Failed;
        assert(o.subtests@[k].result is Failed);
    }
}

} // verus!
