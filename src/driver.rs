//! Sequences the parser, the registry, the runner and the reporters for
//! one invocation of the harness.
use vstd::prelude::*;
use crate::command::{parse_command, parsed, views_of, ParseError, TestEvent};
use crate::harness::{Checkable, Harness, Output, Reporter};
use crate::node::{Check, RunSettings, Test, TestResult};
use crate::registry::{make_tests, registered};
use crate::report::{child_lines, list_all_tests, summarize, summarizes, ListLine, Summary};
use crate::runner::{run_all_tests, runs_all, top_calls, Outcome};

verus! {

/// The command-line options of the `test` command.
#[derive(Clone, Debug)]
pub struct TestOptions {
    /// Events given by flag; the positional command supersedes them.
    pub event: Vec<TestEvent>,
    /// The positional command tokens.
    pub command: Vec<String>,
}

/// What one run of the tests produced, for either reporter.
#[derive(Debug)]
pub struct RunReport {
    pub outcomes: Vec<Outcome>,
    pub summary: Summary,
}

/// What one event produced.
#[derive(Debug)]
pub enum ActionReport {
    Listing(Vec<ListLine>),
    Run(RunReport),
}

/// The registered tests and what each requested event produced, in order.
#[derive(Debug)]
pub struct Session {
    pub tests: Vec<Test>,
    pub reports: Vec<ActionReport>,
}

/// `rep` is what a run of `tests` against `to_skip` reports.
pub open spec fn reports_run(tests: Seq<Test>, to_skip: Seq<usize>, rep: RunReport) -> bool {
    &&& runs_all(tests, to_skip, rep.outcomes@)
    &&& summarizes(tests, rep.outcomes@, rep.summary)
}

/// `ls` lists `tests`: each top-level index and description, in order.
pub open spec fn lists(tests: Seq<Test>, ls: Seq<ListLine>) -> bool {
    &&& ls.len() == tests.len()
    &&& forall|i: int|
        0 <= i < tests.len() ==> (#[trigger] ls[i]).index == i && ls[i].description@
            == tests[i].description@
}

/// `r` is what `event` produces on `tests` with `to_skip`.
pub open spec fn reports_event(
    tests: Seq<Test>,
    to_skip: Seq<usize>,
    event: TestEvent,
    r: ActionReport,
) -> bool {
    match r {
        ActionReport::Listing(ls) => event == TestEvent::List && lists(tests, ls@),
        ActionReport::Run(rep) => event != TestEvent::List && reports_run(tests, to_skip, rep),
    }
}

/// What an event hands to the reporter: the listing's lines; or a run's
/// node lines and then its summary.
pub open spec fn event_outputs(tests: Seq<Test>, r: ActionReport) -> Seq<Output> {
    match r {
        ActionReport::Listing(ls) => ls@.map_values(
            |l: ListLine| Output::Listed(l.index, l.description@),
        ),
        ActionReport::Run(rep) => child_lines(tests, rep.outcomes@, seq![], tests.len() as int).push(
            Output::Summary(rep.summary),
        ),
    }
}

/// The checks an event runs: none for a listing.
pub open spec fn event_calls(
    tests: Seq<Test>,
    to_skip: Seq<usize>,
    r: ActionReport,
    s: RunSettings,
) -> Seq<(Check, RunSettings, TestResult)> {
    match r {
        ActionReport::Listing(_) => seq![],
        ActionReport::Run(rep) => top_calls(tests, to_skip, rep.outcomes@, tests.len() as int, s),
    }
}

/// What the first `n` events hand to the reporter, in order.
pub open spec fn outputs_of(tests: Seq<Test>, reports: Seq<ActionReport>, n: int) -> Seq<Output>
    decreases n,
{
    if 0 < n <= reports.len() {
        outputs_of(tests, reports, n - 1) + event_outputs(tests, reports[n - 1])
    } else {
        seq![]
    }
}

/// The checks the first `n` events run, in order.
pub open spec fn calls_of_events(
    tests: Seq<Test>,
    to_skip: Seq<usize>,
    reports: Seq<ActionReport>,
    n: int,
    s: RunSettings,
) -> Seq<(Check, RunSettings, TestResult)>
    decreases n,
{
    if 0 < n <= reports.len() {
        calls_of_events(tests, to_skip, reports, n - 1, s) + event_calls(
            tests,
            to_skip,
            reports[n - 1],
            s,
        )
    } else {
        seq![]
    }
}

proof fn lemma_events_prefix(
    tests: Seq<Test>,
    to_skip: Seq<usize>,
    r1: Seq<ActionReport>,
    r2: Seq<ActionReport>,
    n: int,
    s: RunSettings,
)
    requires
        n <= r1.len(),
        n <= r2.len(),
        forall|j: int| 0 <= j < n ==> r1[j] == r2[j],
    ensures
        outputs_of(tests, r1, n) == outputs_of(tests, r2, n),
        calls_of_events(tests, to_skip, r1, n, s) == calls_of_events(tests, to_skip, r2, n, s),
    decreases n,
{
    if 0 < n {
        lemma_events_prefix(tests, to_skip, r1, r2, n - 1, s);
    }
}

/// Listings run no check: where every event carried out was a listing, no
/// check ran at all.
pub proof fn lemma_listings_run_no_check(
    tests: Seq<Test>,
    to_skip: Seq<usize>,
    reports: Seq<ActionReport>,
    n: int,
    s: RunSettings,
)
    requires
        0 <= n <= reports.len(),
        forall|a: int| 0 <= a < n ==> (#[trigger] reports[a]) is Listing,
    ensures
        calls_of_events(tests, to_skip, reports, n, s) == Seq::<(Check, RunSettings, TestResult)>::empty(),
    decreases n,
{
    if n > 0 {
        lemma_listings_run_no_check(tests, to_skip, reports, n - 1, s);
        assert(reports[n - 1] is Listing);
        assert(calls_of_events(tests, to_skip, reports, n, s) =~= Seq::<(Check, RunSettings, TestResult)>::empty());
    }
}

/// Carries out `events` in order on `tests`: a listing runs no check and
/// hands each line to the reporter; a run (all, or some with `to_skip`)
/// runs the tests, reporting each node as it goes, then hands over the
/// summary. Every run covers all of `tests`, so the summary of a run is
/// complete once that run ends and is handed over then, one per run event;
/// a command holds at most one skip event, which ends it, so the usual
/// command yields exactly one summary.
pub fn run_events<C: Checkable, R: Reporter>(
    tests: &Vec<Test>,
    events: &Vec<TestEvent>,
    to_skip: &Vec<usize>,
    settings: &RunSettings,
    h: &mut Harness<C, R>,
) -> (reports: Vec<ActionReport>)
    requires
        old(h).idle(),
    ensures
        reports@.len() == events@.len(),
        forall|a: int|
            0 <= a < events@.len() ==> reports_event(
                tests@,
                to_skip@,
                events@[a],
                #[trigger] reports@[a],
            ),
        final(h).calls() == old(h).calls() + calls_of_events(
            tests@,
            to_skip@,
            reports@,
            events@.len() as int,
            *settings,
        ),
        final(h).outputs() == old(h).outputs() + outputs_of(tests@, reports@, events@.len() as int),
        final(h).idle(),
{
    let ghost c0 = h.calls();
    let ghost o0 = h.outputs();
    let mut reports: Vec<ActionReport> = Vec::new();
    let mut a: usize = 0;
    while a < events.len()
        invariant
            0 <= a <= events@.len(),
            reports@.len() == a,
            forall|b: int|
                0 <= b < a ==> reports_event(tests@, to_skip@, events@[b], #[trigger] reports@[b]),
            h.idle(),
            h.calls() == c0 + calls_of_events(tests@, to_skip@, reports@, a as int, *settings),
            h.outputs() == o0 + outputs_of(tests@, reports@, a as int),
        decreases events@.len() - a,
    {
        let ghost cb = h.calls();
        let ghost ob = h.outputs();
        let report = match events[a] {
            TestEvent::List => {
                let ls = list_all_tests(tests);
                let mut j: usize = 0;
                while j < ls.len()
                    invariant
                        0 <= j <= ls@.len(),
                        h.idle(),
                        h.calls() == cb,
                        h.outputs() == ob + ls@.take(j as int).map_values(
                            |l: ListLine| Output::Listed(l.index, l.description@),
                        ),
                    decreases ls@.len() - j,
                {
                    h.listed(&ls[j]);
                    assert(ls@.take(j + 1) =~= ls@.take(j as int).push(ls@[j as int]));
                    assert(h.outputs() =~= ob + ls@.take(j + 1).map_values(
                        |l: ListLine| Output::Listed(l.index, l.description@),
                    ));
                    j += 1;
                }
                assert(ls@.take(j as int) =~= ls@);
                let r = ActionReport::Listing(ls);
                assert(h.calls() =~= cb + event_calls(tests@, to_skip@, r, *settings));
                r
            },
            _ => {
                let outcomes = run_all_tests(tests, to_skip, settings, h);
                let summary = summarize(tests, &outcomes);
                h.summary(&summary);
                let r = ActionReport::Run(RunReport { outcomes, summary });
                assert(h.outputs() =~= ob + event_outputs(tests@, r));
                r
            },
        };
        proof {
            let r2 = reports@.push(report);
            lemma_events_prefix(tests@, to_skip@, reports@, r2, a as int, *settings);
            assert(h.calls() =~= c0 + calls_of_events(tests@, to_skip@, r2, a + 1, *settings));
            assert(h.outputs() =~= o0 + outputs_of(tests@, r2, a + 1));
        }
        reports.push(report);
        a += 1;
    }
    reports
}

/// One invocation of the `test` command: reads the command, and on an
/// invalid event stops with `InvalidEvent` before anything runs or is
/// reported; otherwise takes the registered tests once and carries out
/// each event in order.
pub fn run_test<C: Checkable, R: Reporter>(
    options: &TestOptions,
    settings: &RunSettings,
    h: &mut Harness<C, R>,
) -> (r: Result<Session, ParseError>)
    requires
        old(h).idle(),
    ensures
        final(h).idle(),
        match parsed(views_of(options.command@)) {
            None => r is Err && r->Err_0 == ParseError::InvalidEvent && *final(h) == *old(h),
            Some(p) => {
                &&& r is Ok
                &&& registered(r->Ok_0.tests@)
                &&& r->Ok_0.reports@.len() == p.0.len()
                &&& forall|a: int|
                    0 <= a < p.0.len() ==> reports_event(
                        r->Ok_0.tests@,
                        p.1,
                        p.0[a],
                        #[trigger] r->Ok_0.reports@[a],
                    )
                &&& final(h).calls() == old(h).calls() + calls_of_events(
                    r->Ok_0.tests@,
                    p.1,
                    r->Ok_0.reports@,
                    p.0.len() as int,
                    *settings,
                )
                &&& final(h).outputs() == old(h).outputs() + outputs_of(
                    r->Ok_0.tests@,
                    r->Ok_0.reports@,
                    p.0.len() as int,
                )
            },
        },
{
    let command = match parse_command(&options.command) {
        Ok(c) => c,
        Err(e) => {
            return Err(e);
        },
    };
    let tests = make_tests();
    let reports = run_events(&tests, &command.events, &command.to_skip, settings, h);
    Ok(Session { tests, reports })
}

} // verus!
