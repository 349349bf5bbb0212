//! The test tree and the values that flow through it.
use vstd::prelude::*;

verus! {

/// Configuration threaded through every check and every reporting decision.
#[derive(Clone, Copy, Debug, PartialEq, Eq, Structural)]
pub struct RunSettings {
    pub verbose: bool,
    pub json: bool,
}

/// What a test (or a group of subtests) resolved to.
#[derive(Clone, Debug)]
pub enum TestResult {
    Passed,
    Failed(String),
    Skipped,
}

/// The leaf checks this harness knows how to ask for. A group's own check
/// is `Placeholder` and is never executed.
#[derive(Clone, Copy, Debug, PartialEq, Eq, Structural)]
pub enum Check {
    Placeholder,
    AlwaysPasses,
    AlwaysFails,
    PassesAfterOneSecond,
    LibpfmPresent,
    PerfEventOpen,
    ReadIoctl,
}

/// A node of the test tree: a leaf performing `check`, or a group whose
/// status is derived from `subtests` alone.
#[derive(Debug)]
pub struct Test {
    pub name: String,
    pub description: String,
    pub check: Check,
    pub subtests: Vec<Test>,
    pub is_subtest: bool,
}

/// `path` extended by `k`: the path of the subtest at position `k` of the
/// node at `path`.
pub fn extend_path(path: &Vec<usize>, k: usize) -> (r: Vec<usize>)
    ensures
        r@ == path@.push(k),
{
    let mut r: Vec<usize> = Vec::new();
    let mut i: usize = 0;
    while i < path.len()
        invariant
            0 <= i <= path@.len(),
            r@ == path@.take(i as int),
        decreases path@.len() - i,
    {
        r.push(path[i]);
        assert(path@.take(i + 1) =~= path@.take(i as int).push(path@[i as int]));
        i += 1;
    }
    assert(path@.take(i as int) =~= path@);
    r.push(k);
    r
}

/// The checks whose result is fixed and needs nothing from the machine;
/// the runner settles them itself.
pub open spec fn is_builtin(c: Check) -> bool {
    c == Check::AlwaysPasses || c == Check::AlwaysFails || c == Check::Placeholder
}

/// `r` is the fixed result of the built-in check `c`: a failure with an
/// empty reason for `AlwaysFails`, a pass otherwise.
pub open spec fn builtin_gives(c: Check, r: TestResult) -> bool {
    if c == Check::AlwaysFails {
        r is Failed && r->Failed_0@.len() == 0
    } else {
        r is Passed
    }
}

/// The decimal digit `d`.
pub open spec fn digit_char(d: nat) -> char {
    if d == 0 {
        '0'
    } else if d == 1 {
        '1'
    } else if d == 2 {
        '2'
    } else if d == 3 {
        '3'
    } else if d == 4 {
        '4'
    } else if d == 5 {
        '5'
    } else if d == 6 {
        '6'
    } else if d == 7 {
        '7'
    } else if d == 8 {
        '8'
    } else {
        '9'
    }
}

/// `n` written in decimal, without leading zeros.
pub open spec fn decimal(n: nat) -> Seq<char>
    decreases n,
{
    if n < 10 {
        seq![digit_char(n)]
    } else {
        decimal(n / 10).push(digit_char(n % 10))
    }
}

/// A path written as its indices in decimal, joined by dots.
pub open spec fn dotted(path: Seq<usize>) -> Seq<char>
    decreases path.len(),
{
    if path.len() == 0 {
        seq![]
    } else if path.len() == 1 {
        decimal(path[0] as nat)
    } else {
        dotted(path.drop_last()) + seq!['.'] + decimal(path.last() as nat)
    }
}

fn push_decimal(n: usize, out: &mut Vec<char>)
    ensures
        final(out)@ == old(out)@ + decimal(n as nat),
    decreases n,
{
    if n >= 10 {
        push_decimal(n / 10, out);
    }
    let d = n % 10;
    let c = match d {
        0 => '0',
        1 => '1',
        2 => '2',
        3 => '3',
        4 => '4',
        5 => '5',
        6 => '6',
        7 => '7',
        8 => '8',
        _ => '9',
    };
    out.push(c);
    assert(out@ =~= old(out)@ + decimal(n as nat));
}

/// The text of a path as the report shows it: its indices in decimal,
/// joined by dots (the subtest at position 1 of top-level test 3 is `3.1`).
pub fn dotted_path(path: &Vec<usize>) -> (r: Vec<char>)
    ensures
        r@ == dotted(path@),
{
    let mut r: Vec<char> = Vec::new();
    let mut i: usize = 0;
    while i < path.len()
        invariant
            0 <= i <= path@.len(),
            r@ == dotted(path@.take(i as int)),
        decreases path@.len() - i,
    {
        proof {
            assert(path@.take(i + 1).drop_last() =~= path@.take(i as int));
        }
        if i > 0 {
            r.push('.');
        }
        push_decimal(path[i], &mut r);
        assert(r@ =~= dotted(path@.take(i + 1)));
        i += 1;
    }
    assert(path@.take(i as int) =~= path@);
    r
}

/// The path of the subtest at position `k` of top-level test `i` reads
/// `i.k`.
pub proof fn lemma_dotted_child(i: usize, k: usize)
    ensures
        dotted(seq![i, k]) == decimal(i as nat) + seq!['.'] + decimal(k as nat),
{
    let p = seq![i, k];
    assert(p.drop_last() =~= seq![i]);
    assert(p.last() == k);
    assert(dotted(seq![i]) == decimal(i as nat));
}

impl TestResult {
    /// Whether this is a failure, whatever its reason.
    pub fn is_failed(&self) -> (r: bool)
        ensures
            r == (*self is Failed),
    {
        match self {
            TestResult::Failed(_) => true,
            _ => false,
        }
    }
}

} // verus!
