use selftest::command::{parse_command, parse_index, parse_skip_index, ParseError, TestEvent};
use selftest::driver::{run_test, ActionReport, TestOptions};
use selftest::harness::{Checkable, Harness, Reporter};
use selftest::node::{dotted_path, Check, RunSettings, Test, TestResult};
use selftest::registry::{
    builtin_result, libpfm_result, make_tests, passes_after_sleep, perf_open_result,
    read_count_result, test_fd, test_with_pointless_subtests,
};
use selftest::report::{list_all_tests, summarize, ListLine, Summary, Verdict};
use selftest::runner::{run_all_tests, run_single_test};

/// Runs the checks that need nothing from the machine, passes the others,
/// and records every call.
struct Counting {
    calls: Vec<Check>,
    verbose_seen: Vec<bool>,
}

impl Checkable for Counting {
    fn execute(&mut self, check: Check, settings: &RunSettings) -> TestResult {
        self.calls.push(check);
        self.verbose_seen.push(settings.verbose);
        builtin_result(check).unwrap_or(TestResult::Passed)
    }
}

/// Reports every check as skipped.
struct SkipsAll;

impl Checkable for SkipsAll {
    fn execute(&mut self, _check: Check, _settings: &RunSettings) -> TestResult {
        TestResult::Skipped
    }
}

/// Records what it is told, one string per event.
struct Recording {
    events: Vec<String>,
}

impl Reporter for Recording {
    fn begin(&mut self, path: &Vec<usize>, description: &String) {
        let p: Vec<String> = path.iter().map(|i| i.to_string()).collect();
        self.events.push(format!("begin {} {}", p.join("."), description));
    }
    fn open_group(&mut self) {
        self.events.push("group".to_string());
    }
    fn finish(&mut self, result: &TestResult) {
        let r = match result {
            TestResult::Passed => "passed".to_string(),
            TestResult::Failed(s) => format!("failed {}", s),
            TestResult::Skipped => "skipped".to_string(),
        };
        self.events.push(r);
    }
    fn listed(&mut self, line: &ListLine) {
        self.events.push(format!("listed {} {}", line.index, line.description));
    }
    fn summary(&mut self, summary: &Summary) {
        self.events.push(format!("summary {}", summary.tests_ran));
    }
}

fn harness() -> Harness<Counting, Recording> {
    Harness::new(
        Counting { calls: Vec::new(), verbose_seen: Vec::new() },
        Recording { events: Vec::new() },
    )
}

fn settings() -> RunSettings {
    RunSettings { verbose: false, json: false }
}

fn tokens(ts: &[&str]) -> Vec<String> {
    ts.iter().map(|t| t.to_string()).collect()
}

fn leaf(name: &str, check: Check) -> Test {
    Test {
        name: name.to_string(),
        description: name.to_string(),
        check,
        subtests: Vec::new(),
        is_subtest: false,
    }
}

fn options(ts: &[&str]) -> TestOptions {
    TestOptions { event: Vec::new(), command: tokens(ts) }
}

// the built-in checks are settled by the runner and never reach the runner
// of machine checks
const ALL_CHECKS: [Check; 2] = [Check::PassesAfterOneSecond, Check::LibpfmPresent];

#[test]
fn empty_tokens_run_everything() {
    let c = parse_command(&tokens(&[])).unwrap();
    assert_eq!(c.events, vec![TestEvent::RunAll]);
    assert!(c.to_skip.is_empty());
    let mut h = harness();
    let session = run_test(&options(&[]), &settings(), &mut h).unwrap();
    assert_eq!(session.reports.len(), 1);
    match &session.reports[0] {
        ActionReport::Run(rep) => {
            assert_eq!(rep.outcomes.len(), 5);
            assert!(matches!(rep.outcomes[0].result, TestResult::Passed));
            assert!(matches!(rep.outcomes[1].result, TestResult::Failed(_)));
            assert!(matches!(rep.outcomes[3].result, TestResult::Failed(_)));
        }
        ActionReport::Listing(_) => panic!("expected a run"),
    }
    assert_eq!(h.checks().calls, ALL_CHECKS.to_vec());
}

#[test]
fn list_token_lists_without_running() {
    let c = parse_command(&tokens(&["list"])).unwrap();
    assert_eq!(c.events, vec![TestEvent::List]);
    let mut h = harness();
    let session = run_test(&options(&["list"]), &settings(), &mut h).unwrap();
    assert_eq!(session.reports.len(), 1);
    match &session.reports[0] {
        ActionReport::Listing(ls) => {
            assert_eq!(ls.len(), 5);
            for (i, l) in ls.iter().enumerate() {
                assert_eq!(l.index, i);
            }
            assert_eq!(ls[0].description, "This test always passes");
            assert_eq!(ls[3].description, "Test with many subtests");
        }
        ActionReport::Run(_) => panic!("expected a listing"),
    }
    assert!(h.checks().calls.is_empty());
    assert_eq!(
        h.reporter().events,
        vec![
            "listed 0 This test always passes",
            "listed 1 This test always fails",
            "listed 2 This test passes after 1 second",
            "listed 3 Test with many subtests",
            "listed 4 Checks for presence of libpfm4",
        ]
    );
}

#[test]
fn list_twice_gives_two_listings() {
    let c = parse_command(&tokens(&["list", "list"])).unwrap();
    assert_eq!(c.events, vec![TestEvent::List, TestEvent::List]);
    let tests = make_tests();
    let ls = list_all_tests(&tests);
    assert_eq!(ls.len(), tests.len());
    let mut h = harness();
    run_test(&options(&["list", "list"]), &settings(), &mut h).unwrap();
    assert_eq!(h.reporter().events.len(), 10);
    assert!(h.checks().calls.is_empty());
}

#[test]
fn skip_zero_and_two() {
    let c = parse_command(&tokens(&["-s", "0", "2"])).unwrap();
    assert_eq!(c.events, vec![TestEvent::RunSome]);
    assert_eq!(c.to_skip, vec![0, 2]);
    let tests = make_tests();
    let mut h = harness();
    let outs = run_all_tests(&tests, &c.to_skip, &settings(), &mut h);
    assert!(matches!(outs[0].result, TestResult::Skipped));
    assert!(matches!(outs[1].result, TestResult::Failed(_)));
    assert!(matches!(outs[2].result, TestResult::Skipped));
    assert!(matches!(outs[3].result, TestResult::Failed(_)));
    assert!(matches!(outs[4].result, TestResult::Passed));
    assert_eq!(h.checks().calls, vec![Check::LibpfmPresent]);
}

#[test]
fn skip_with_long_flag_and_whitespace() {
    let c = parse_command(&tokens(&["list", "--skip", " 1 ", "x", "+4"])).unwrap();
    assert_eq!(c.events, vec![TestEvent::List, TestEvent::RunSome]);
    assert_eq!(c.to_skip, vec![1, 4]);
}

#[test]
fn skip_consumes_event_words() {
    let c = parse_command(&tokens(&["-s", "list", "bogus"])).unwrap();
    assert_eq!(c.events, vec![TestEvent::RunSome]);
    assert!(c.to_skip.is_empty());
}

#[test]
fn non_numeric_skip_is_dropped() {
    let c = parse_command(&tokens(&["-s", "abc"])).unwrap();
    assert_eq!(c.events, vec![TestEvent::RunSome]);
    assert!(c.to_skip.is_empty());
    let mut h = harness();
    run_test(&options(&["-s", "abc"]), &settings(), &mut h).unwrap();
    let mut all = harness();
    run_test(&options(&[]), &settings(), &mut all).unwrap();
    assert_eq!(h.checks().calls, ALL_CHECKS.to_vec());
    assert_eq!(h.reporter().events, all.reporter().events);
}

#[test]
fn bogus_token_is_rejected() {
    assert!(matches!(parse_command(&tokens(&["bogus"])), Err(ParseError::InvalidEvent)));
    assert!(matches!(parse_command(&tokens(&["list", "bogus"])), Err(ParseError::InvalidEvent)));
    let mut h = harness();
    let r = run_test(&options(&["bogus"]), &settings(), &mut h);
    assert!(matches!(r, Err(ParseError::InvalidEvent)));
    assert!(h.checks().calls.is_empty());
    assert!(h.reporter().events.is_empty());
}

#[test]
fn empty_token_runs_all() {
    let c = parse_command(&tokens(&["", ""])).unwrap();
    assert_eq!(c.events, vec![TestEvent::RunAll, TestEvent::RunAll]);
}

#[test]
fn event_words() {
    assert_eq!(TestEvent::parse_event(""), Ok(TestEvent::RunAll));
    assert_eq!(TestEvent::parse_event("list"), Ok(TestEvent::List));
    assert_eq!(TestEvent::parse_event("-s"), Ok(TestEvent::RunSome));
    assert_eq!(TestEvent::parse_event("--skip"), Ok(TestEvent::RunSome));
    assert_eq!(TestEvent::parse_event("List"), Err(ParseError::InvalidEvent));
    assert_eq!(TestEvent::parse_event("lists"), Err(ParseError::InvalidEvent));
    assert_eq!("list".parse::<TestEvent>(), Ok(TestEvent::List));
}

#[test]
fn skip_index_text() {
    assert_eq!(parse_skip_index("0"), Some(0));
    assert_eq!(parse_skip_index("42"), Some(42));
    assert_eq!(parse_skip_index("+3"), Some(3));
    assert_eq!(parse_skip_index("+"), None);
    assert_eq!(parse_skip_index(""), None);
    assert_eq!(parse_skip_index("-1"), None);
    assert_eq!(parse_skip_index("1a"), None);
    assert_eq!(parse_skip_index(" 7"), None);
    assert_eq!(parse_skip_index(&usize::MAX.to_string()), Some(usize::MAX));
    assert_eq!(parse_skip_index("99999999999999999999999999"), None);
}

#[test]
fn skip_index_is_trimmed() {
    assert_eq!(parse_index(" 7 "), Some(7));
    assert_eq!(parse_index("\t12\n"), Some(12));
    assert_eq!(parse_index("  "), None);
}

#[test]
fn skip_index_out_of_range_is_tolerated() {
    let tests = make_tests();
    let mut h = harness();
    let outs = run_all_tests(&tests, &vec![99, 4], &settings(), &mut h);
    assert_eq!(outs.len(), 5);
    assert!(matches!(outs[4].result, TestResult::Skipped));
    assert!(outs[..4].iter().all(|o| !matches!(o.result, TestResult::Skipped)));
    let mut same = harness();
    run_all_tests(&tests, &vec![4], &settings(), &mut same);
    assert_eq!(h.checks().calls, same.checks().calls);
    assert_eq!(h.reporter().events, same.reporter().events);
}

#[test]
fn skipped_group_runs_nothing_beneath() {
    let tests = vec![test_with_pointless_subtests()];
    let mut h = harness();
    let outs = run_all_tests(&tests, &vec![0], &settings(), &mut h);
    assert!(matches!(outs[0].result, TestResult::Skipped));
    assert!(outs[0].subtests.is_empty());
    assert!(h.checks().calls.is_empty());
    assert_eq!(h.reporter().events, vec!["begin 0 Test with many subtests", "skipped"]);
}

#[test]
fn group_with_failing_child_fails() {
    let g = test_with_pointless_subtests();
    let mut h = harness();
    let o = run_single_test(&g, false, &vec![3], &settings(), &mut h);
    match &o.result {
        TestResult::Failed(reason) => assert_eq!(reason, ""),
        _ => panic!("expected a failure"),
    }
    assert_eq!(o.subtests.len(), 3);
    assert!(matches!(o.subtests[0].result, TestResult::Passed));
    assert!(matches!(o.subtests[1].result, TestResult::Failed(_)));
    assert!(matches!(o.subtests[2].result, TestResult::Passed));
    assert!(h.checks().calls.is_empty());
    let tests = vec![g];
    let outs = vec![o];
    let s = summarize(&tests, &outs);
    assert_eq!(s.results[0].result, Verdict::Failed);
    assert_eq!(s.results[0].result.as_str(), "failed");
    assert_eq!(s.results[0].name, "subtest_test");
}

#[test]
fn group_of_skipped_children_passes() {
    let mut g = leaf("group", Check::Placeholder);
    g.subtests = vec![leaf("a", Check::LibpfmPresent), leaf("b", Check::LibpfmPresent)];
    let mut h = Harness::new(SkipsAll, Recording { events: Vec::new() });
    let o = run_single_test(&g, false, &vec![0], &settings(), &mut h);
    assert!(matches!(o.result, TestResult::Passed));
    assert!(matches!(o.subtests[0].result, TestResult::Skipped));
}

#[test]
fn group_without_failures_passes() {
    let mut g = leaf("group", Check::AlwaysFails);
    g.subtests = vec![leaf("a", Check::AlwaysPasses), leaf("b", Check::AlwaysPasses)];
    let mut h = harness();
    let o = run_single_test(&g, false, &vec![0], &settings(), &mut h);
    assert!(matches!(o.result, TestResult::Passed));
    // the group's own check is never run, and built-in checks are settled
    // by the runner
    assert!(h.checks().calls.is_empty());
}

#[test]
fn leaf_result_is_reported_verbatim() {
    let t = leaf("skips", Check::LibpfmPresent);
    let mut h = Harness::new(SkipsAll, Recording { events: Vec::new() });
    let o = run_single_test(&t, false, &vec![0], &settings(), &mut h);
    assert!(matches!(o.result, TestResult::Skipped));
    assert!(o.subtests.is_empty());
    assert_eq!(h.reporter().events, vec!["begin 0 skips", "skipped"]);
}

#[test]
fn child_paths_are_dotted_under_parent() {
    let tests = make_tests();
    let mut h = harness();
    run_all_tests(&tests, &vec![], &settings(), &mut h);
    let ev = &h.reporter().events;
    assert_eq!(ev[6], "begin 3 Test with many subtests");
    assert_eq!(ev[7], "group");
    assert_eq!(ev[8], "begin 3.0 This one passes");
    assert_eq!(ev[10], "begin 3.1 This one fails");
    assert_eq!(ev[11], "failed ");
    assert_eq!(ev[12], "begin 3.2 This one also passes");
    assert_eq!(ev[14], "begin 4 Checks for presence of libpfm4");
}

#[test]
fn reporter_hears_nodes_in_preorder() {
    let tests = vec![test_with_pointless_subtests(), leaf("last", Check::AlwaysPasses)];
    let mut h = harness();
    run_all_tests(&tests, &vec![1], &settings(), &mut h);
    assert_eq!(
        h.reporter().events,
        vec![
            "begin 0 Test with many subtests",
            "group",
            "begin 0.0 This one passes",
            "passed",
            "begin 0.1 This one fails",
            "failed ",
            "begin 0.2 This one also passes",
            "passed",
            "begin 1 last",
            "skipped",
        ]
    );
}

#[test]
fn reporter_hears_events_in_order() {
    let mut h = harness();
    let session =
        run_test(&options(&["list", "-s", "0", "1", "2", "3"]), &settings(), &mut h).unwrap();
    assert_eq!(session.reports.len(), 2);
    let ev = &h.reporter().events;
    assert_eq!(ev[0], "listed 0 This test always passes");
    assert_eq!(ev[4], "listed 4 Checks for presence of libpfm4");
    assert_eq!(ev[5], "begin 0 This test always passes");
    assert_eq!(ev.last().unwrap(), "summary 1");
    assert_eq!(h.checks().calls, vec![Check::LibpfmPresent]);
}

#[test]
fn summary_counts_agree() {
    let tests = make_tests();
    let mut h = harness();
    let outs = run_all_tests(&tests, &vec![0, 2], &settings(), &mut h);
    let s = summarize(&tests, &outs);
    assert_eq!(s.tests_available, 5);
    assert_eq!(s.tests_skipped, 2);
    assert_eq!(s.tests_ran, 3);
    assert_eq!(s.tests_passed, 1);
    assert_eq!(s.tests_failed, 2);
    assert_eq!(s.tests_passed + s.tests_failed, s.tests_ran);
    assert_eq!(s.results.len(), 5);
    for (i, e) in s.results.iter().enumerate() {
        assert_eq!(e.number, i);
    }
    assert_eq!(s.results[0].result.as_str(), "skipped");
    assert_eq!(s.results[4].result.as_str(), "passed");
    assert_eq!(s.results[1].description, "This test always fails");
}

#[test]
fn registry_order() {
    let tests = make_tests();
    let names: Vec<&str> = tests.iter().map(|t| t.name.as_str()).collect();
    assert_eq!(
        names,
        vec!["always_passes", "always_fails", "passes_after_1sec", "subtest_test", "has_libpfm4"]
    );
    assert!(tests[3].subtests.iter().all(|s| s.is_subtest));
    let fd = test_fd();
    assert_eq!(fd.subtests.len(), 2);
    assert_eq!(fd.subtests[1].check, Check::ReadIoctl);
}

#[test]
fn builtin_checks() {
    assert!(matches!(builtin_result(Check::AlwaysPasses), Some(TestResult::Passed)));
    assert!(matches!(builtin_result(Check::Placeholder), Some(TestResult::Passed)));
    match builtin_result(Check::AlwaysFails) {
        Some(TestResult::Failed(reason)) => assert_eq!(reason, ""),
        _ => panic!("expected a failure"),
    }
    assert!(builtin_result(Check::LibpfmPresent).is_none());
    assert!(builtin_result(Check::PassesAfterOneSecond).is_none());
}

#[test]
fn machine_check_results() {
    assert!(matches!(passes_after_sleep(), TestResult::Passed));
    assert!(matches!(libpfm_result(true, true), TestResult::Passed));
    assert!(matches!(libpfm_result(true, false), TestResult::Failed(ref s) if s.is_empty()));
    assert!(matches!(libpfm_result(false, true), TestResult::Failed(_)));
    assert!(matches!(perf_open_result(3, false), TestResult::Passed));
    assert!(matches!(perf_open_result(-1, false), TestResult::Failed(ref s) if s == "-1"));
    assert!(matches!(
        perf_open_result(-1, true),
        TestResult::Failed(ref s) if s == "perf_event_open returned -1, which is an error code"
    ));
    assert!(matches!(read_count_result(12, true), TestResult::Passed));
    assert!(matches!(read_count_result(0, false), TestResult::Failed(ref s) if s == "(0)"));
    assert!(matches!(
        read_count_result(0, true),
        TestResult::Failed(ref s)
            if s == "\nINFO\tThe CPU cycles count was 0. It should be bigger than that"
    ));
}

#[test]
fn path_text() {
    let text = |p: Vec<usize>| dotted_path(&p).into_iter().collect::<String>();
    assert_eq!(text(vec![3, 1]), "3.1");
    assert_eq!(text(vec![0]), "0");
    assert_eq!(text(vec![12, 0, 105]), "12.0.105");
    assert_eq!(text(vec![]), "");
}

#[test]
fn checks_get_the_run_settings() {
    let tests = make_tests();
    let mut h = harness();
    let verbose = RunSettings { verbose: true, json: false };
    run_all_tests(&tests, &vec![], &verbose, &mut h);
    assert_eq!(h.checks().calls, ALL_CHECKS.to_vec());
    assert_eq!(h.checks().verbose_seen, vec![true, true]);
}

#[test]
fn built_in_leaf_ignores_check_runner() {
    let t = leaf("fails", Check::AlwaysFails);
    let mut h = Harness::new(SkipsAll, Recording { events: Vec::new() });
    let o = run_single_test(&t, false, &vec![0], &settings(), &mut h);
    assert!(matches!(o.result, TestResult::Failed(ref s) if s.is_empty()));
    assert_eq!(h.reporter().events, vec!["begin 0 fails", "failed "]);
}

#[test]
fn from_str_table() {
    assert_eq!(<TestEvent as std::str::FromStr>::from_str(""), Ok(TestEvent::RunAll));
    assert_eq!(<TestEvent as std::str::FromStr>::from_str("-s"), Ok(TestEvent::RunSome));
    assert_eq!(<TestEvent as std::str::FromStr>::from_str("--skip"), Ok(TestEvent::RunSome));
    assert_eq!(<TestEvent as std::str::FromStr>::from_str("list"), Ok(TestEvent::List));
    assert_eq!(<TestEvent as std::str::FromStr>::from_str(" list"), Err(ParseError::InvalidEvent));
    assert_eq!(<TestEvent as std::str::FromStr>::from_str("LIST"), Err(ParseError::InvalidEvent));
    assert_eq!(<TestEvent as std::str::FromStr>::from_str("bogus"), Err(ParseError::InvalidEvent));
}

#[test]
fn skip_index_unicode_space_is_trimmed() {
    assert_eq!(parse_index("\u{a0}5\u{3000}"), Some(5));
    assert_eq!(parse_index("5 6"), None);
}
