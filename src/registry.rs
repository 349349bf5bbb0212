//! The fixed, ordered list of tests. Adding a check means appending a node
//! here.
use vstd::prelude::*;
use crate::node::{builtin_gives, is_builtin, Check, Test, TestResult};

verus! {

/// A node with no subtests.
fn leaf(name: &str, description: &str, check: Check, is_subtest: bool) -> (t: Test)
    ensures
        t.name@ == name@,
        t.description@ == description@,
        t.check == check,
        t.subtests@.len() == 0,
        t.is_subtest == is_subtest,
{
    Test {
        name: name.to_owned(),
        description: description.to_owned(),
        check,
        subtests: Vec::new(),
        is_subtest,
    }
}

/// A leaf check that always passes.
pub fn test_always_passes() -> (t: Test)
    ensures
        t.name@ == "always_passes"@,
        t.description@ == "This test always passes"@,
        t.check == Check::AlwaysPasses,
        t.subtests@.len() == 0,
        !t.is_subtest,
{
    leaf("always_passes", "This test always passes", Check::AlwaysPasses, false)
}

/// A leaf check that always fails.
pub fn test_always_fails() -> (t: Test)
    ensures
        t.name@ == "always_fails"@,
        t.description@ == "This test always fails"@,
        t.check == Check::AlwaysFails,
        t.subtests@.len() == 0,
        !t.is_subtest,
{
    leaf("always_fails", "This test always fails", Check::AlwaysFails, false)
}

/// A leaf check that passes after sleeping for one second.
pub fn test_passes_after_1sec() -> (t: Test)
    ensures
        t.name@ == "passes_after_1sec"@,
        t.description@ == "This test passes after 1 second"@,
        t.check == Check::PassesAfterOneSecond,
        t.subtests@.len() == 0,
        !t.is_subtest,
{
    leaf("passes_after_1sec", "This test passes after 1 second", Check::PassesAfterOneSecond, false)
}

/// A group of three subtests: the first and third pass, the second fails.
pub fn test_with_pointless_subtests() -> (t: Test)
    ensures
        t.name@ == "subtest_test"@,
        t.description@ == "Test with many subtests"@,
        t.check == Check::Placeholder,
        !t.is_subtest,
        t.subtests@.len() == 3,
        t.subtests@[0].name@ == "pointless1"@,
        t.subtests@[0].description@ == "This one passes"@,
        t.subtests@[0].check == Check::AlwaysPasses,
        t.subtests@[1].name@ == "pointless2"@,
        t.subtests@[1].description@ == "This one fails"@,
        t.subtests@[1].check == Check::AlwaysFails,
        t.subtests@[2].name@ == "pointless3"@,
        t.subtests@[2].description@ == "This one also passes"@,
        t.subtests@[2].check == Check::AlwaysPasses,
        forall|k: int|
            0 <= k < 3 ==> (#[trigger] t.subtests@[k]).subtests@.len() == 0
                && t.subtests@[k].is_subtest,
{
    let mut subtests: Vec<Test> = Vec::new();
    subtests.push(leaf("pointless1", "This one passes", Check::AlwaysPasses, true));
    subtests.push(leaf("pointless2", "This one fails", Check::AlwaysFails, true));
    subtests.push(leaf("pointless3", "This one also passes", Check::AlwaysPasses, true));
    Test {
        name: "subtest_test".to_owned(),
        description: "Test with many subtests".to_owned(),
        check: Check::Placeholder,
        subtests,
        is_subtest: false,
    }
}

/// A leaf check that the libpfm4 library is installed.
pub fn test_check_for_libpfm4() -> (t: Test)
    ensures
        t.name@ == "has_libpfm4"@,
        t.description@ == "Checks for presence of libpfm4"@,
        t.check == Check::LibpfmPresent,
        t.subtests@.len() == 0,
        !t.is_subtest,
{
    leaf("has_libpfm4", "Checks for presence of libpfm4", Check::LibpfmPresent, false)
}

/// A group of sanity checks on performance-counter file descriptors:
/// opening one, then enabling and reading it.
pub fn test_fd() -> (t: Test)
    ensures
        t.name@ == "fd_sanity"@,
        t.description@ == "File descriptor sanity tests"@,
        t.check == Check::Placeholder,
        !t.is_subtest,
        t.subtests@.len() == 2,
        t.subtests@[0].name@ == "perf_event_open"@,
        t.subtests@[0].description@ == "perf_event_open sanity check"@,
        t.subtests@[0].check == Check::PerfEventOpen,
        t.subtests@[1].name@ == "test_read_ioctl"@,
        t.subtests@[1].description@ == "read / ioctl sanity check"@,
        t.subtests@[1].check == Check::ReadIoctl,
        forall|k: int|
            0 <= k < 2 ==> (#[trigger] t.subtests@[k]).subtests@.len() == 0
                && t.subtests@[k].is_subtest,
{
    let mut subtests: Vec<Test> = Vec::new();
    subtests.push(leaf("perf_event_open", "perf_event_open sanity check", Check::PerfEventOpen, true));
    subtests.push(leaf("test_read_ioctl", "read / ioctl sanity check", Check::ReadIoctl, true));
    Test {
        name: "fd_sanity".to_owned(),
        description: "File descriptor sanity tests".to_owned(),
        check: Check::Placeholder,
        subtests,
        is_subtest: false,
    }
}

/// `tests` are the registered tests: the passing, failing and one-second
/// checks, the group of three subtests, and the libpfm4 check, in order.
pub open spec fn registered(tests: Seq<Test>) -> bool {
    &&& tests.len() == 5
    &&& tests[0].name@ == "always_passes"@
    &&& tests[0].description@ == "This test always passes"@
    &&& tests[0].check == Check::AlwaysPasses
    &&& tests[1].name@ == "always_fails"@
    &&& tests[1].description@ == "This test always fails"@
    &&& tests[1].check == Check::AlwaysFails
    &&& tests[2].name@ == "passes_after_1sec"@
    &&& tests[2].description@ == "This test passes after 1 second"@
    &&& tests[2].check == Check::PassesAfterOneSecond
    &&& tests[3].name@ == "subtest_test"@
    &&& tests[3].description@ == "Test with many subtests"@
    &&& tests[3].check == Check::Placeholder
    &&& tests[3].subtests@.len() == 3
    &&& tests[3].subtests@[0].name@ == "pointless1"@
    &&& tests[3].subtests@[0].description@ == "This one passes"@
    &&& tests[3].subtests@[0].check == Check::AlwaysPasses
    &&& tests[3].subtests@[1].name@ == "pointless2"@
    &&& tests[3].subtests@[1].description@ == "This one fails"@
    &&& tests[3].subtests@[1].check == Check::AlwaysFails
    &&& tests[3].subtests@[2].name@ == "pointless3"@
    &&& tests[3].subtests@[2].description@ == "This one also passes"@
    &&& tests[3].subtests@[2].check == Check::AlwaysPasses
    &&& forall|k: int|
        0 <= k < 3 ==> (#[trigger] tests[3].subtests@[k]).subtests@.len() == 0
            && tests[3].subtests@[k].is_subtest
    &&& tests[4].name@ == "has_libpfm4"@
    &&& tests[4].description@ == "Checks for presence of libpfm4"@
    &&& tests[4].check == Check::LibpfmPresent
    &&& forall|i: int| 0 <= i < 5 && i != 3 ==> (#[trigger] tests[i]).subtests@.len() == 0
    &&& forall|i: int| 0 <= i < 5 ==> !(#[trigger] tests[i]).is_subtest
}

/// The registered tests, in order.
pub fn make_tests() -> (tests: Vec<Test>)
    ensures
        registered(tests@),
{
    let mut tests: Vec<Test> = Vec::new();
    tests.push(test_always_passes());
    tests.push(test_always_fails());
    tests.push(test_passes_after_1sec());
    tests.push(test_with_pointless_subtests());
    tests.push(test_check_for_libpfm4());
    tests
}

/// The result of the checks that need nothing from the machine; `None`
/// for those that do. A group's placeholder check passes.
pub fn builtin_result(check: Check) -> (r: Option<TestResult>)
    ensures
        (check == Check::AlwaysPasses || check == Check::Placeholder) <==> r == Some(
            TestResult::Passed,
        ),
        check == Check::AlwaysFails <==> (r matches Some(TestResult::Failed(reason))
            && reason@.len() == 0),
        r is None <==> !(check == Check::AlwaysPasses || check == Check::Placeholder || check
            == Check::AlwaysFails),
        r is Some <==> is_builtin(check),
        r is Some ==> builtin_gives(check, r->0),
{
    match check {
        Check::Placeholder => Some(TestResult::Passed),
        Check::AlwaysPasses => Some(TestResult::Passed),
        Check::AlwaysFails => Some(TestResult::Failed(String::new())),
        _ => None,
    }
}

/// The one-second check's result once its sleep is over: it passes.
pub fn passes_after_sleep() -> (r: TestResult)
    ensures
        r == TestResult::Passed,
{
    TestResult::Passed
}

/// The libpfm4 check's result from the library listing's query: it passes
/// when the query succeeded and its output mentions libpfm, and fails with
/// an empty reason otherwise.
pub fn libpfm_result(query_succeeded: bool, mentions_libpfm: bool) -> (r: TestResult)
    ensures
        query_succeeded && mentions_libpfm ==> r == TestResult::Passed,
        !(query_succeeded && mentions_libpfm) ==> (r matches TestResult::Failed(reason)
            && reason@.len() == 0),
{
    if query_succeeded && mentions_libpfm {
        TestResult::Passed
    } else {
        TestResult::Failed(String::new())
    }
}

/// The open check's result from what `perf_event_open` returned: `-1` is a
/// failure, explained when `verbose`; anything else passes.
pub fn perf_open_result(fd: i64, verbose: bool) -> (r: TestResult)
    ensures
        fd != -1 ==> r == TestResult::Passed,
        fd == -1 && verbose ==> (r matches TestResult::Failed(reason) && reason@
            == "perf_event_open returned -1, which is an error code"@),
        fd == -1 && !verbose ==> (r matches TestResult::Failed(reason) && reason@ == "-1"@),
{
    if fd == -1 {
        if verbose {
            TestResult::Failed("perf_event_open returned -1, which is an error code".to_owned())
        } else {
            TestResult::Failed("-1".to_owned())
        }
    } else {
        TestResult::Passed
    }
}

/// The read check's result from the counter value read: zero cycles is a
/// failure, explained when `verbose`; any other count passes.
pub fn read_count_result(count: u64, verbose: bool) -> (r: TestResult)
    ensures
        count != 0 ==> r == TestResult::Passed,
        count == 0 && verbose ==> (r matches TestResult::Failed(reason) && reason@
            == "\nINFO\tThe CPU cycles count was 0. It should be bigger than that"@),
        count == 0 && !verbose ==> (r matches TestResult::Failed(reason) && reason@ == "(0)"@),
{
    if count == 0 {
        if verbose {
            TestResult::Failed(
                "\nINFO\tThe CPU cycles count was 0. It should be bigger than that".to_owned(),
            )
        } else {
            TestResult::Failed("(0)".to_owned())
        }
    } else {
        TestResult::Passed
    }
}

} // verus!
