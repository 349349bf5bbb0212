//! The command grammar: tokens, read left to right, become an ordered list
//! of events and, for a selective run, a set of top-level indices to skip.
use vstd::prelude::*;
use vstd::std_specs::iter::IteratorSpec;

verus! {

/// A unit of work requested on the command line.
#[derive(Clone, Copy, Debug, PartialEq, Eq, Structural)]
pub enum TestEvent {
    RunAll,
    RunSome,
    List,
}

/// Why a command line could not be read.
#[derive(Clone, Copy, Debug, PartialEq, Eq, Structural)]
pub enum ParseError {
    InvalidEvent,
}

/// A parsed command line: the events in order, and the indices to skip.
#[derive(Clone, Debug)]
pub struct Command {
    pub events: Vec<TestEvent>,
    pub to_skip: Vec<usize>,
}

/// A character of Unicode's White_Space property.
pub open spec fn is_white_space(c: char) -> bool {
    ('\u{9}' <= c && c <= '\u{d}') || c == ' ' || c == '\u{85}' || c == '\u{a0}' || c == '\u{1680}'
        || ('\u{2000}' <= c && c <= '\u{200a}') || c == '\u{2028}' || c == '\u{2029}' || c
        == '\u{202f}' || c == '\u{205f}' || c == '\u{3000}'
}

/// `s` without its leading white space.
pub open spec fn trim_start(s: Seq<char>) -> Seq<char>
    decreases s.len(),
{
    if s.len() > 0 && is_white_space(s[0]) {
        trim_start(s.drop_first())
    } else {
        s
    }
}

/// `s` without its trailing white space.
pub open spec fn trim_end(s: Seq<char>) -> Seq<char>
    decreases s.len(),
{
    if s.len() > 0 && is_white_space(s.last()) {
        trim_end(s.drop_last())
    } else {
        s
    }
}

/// `s` without leading and trailing white space.
pub open spec fn trimmed(s: Seq<char>) -> Seq<char> {
    trim_end(trim_start(s))
}

/// The characters of the string, in order.
fn chars_of(s: &str) -> (r: Vec<char>)
    ensures
        r@ == s@,
{
    let mut it = s.chars();
    let mut r: Vec<char> = Vec::new();
    loop
        invariant
            r@ + it.remaining() == s@,
            it.decrease() is Some,
        ensures
            r@ == s@,
        decreases it.decrease()->0,
    {
        match it.next() {
            Some(c) => {
                assert(r@.push(c) + it.remaining() =~= s@);
                r.push(c);
            },
            None => {
                assert(r@ + it.remaining() =~= r@);
                break;
            },
        }
    }
    r
}

/// The event a single token names, if any.
pub open spec fn event_of(s: Seq<char>) -> Option<TestEvent> {
    if s.len() == 0 {
        Some(TestEvent::RunAll)
    } else if s == seq!['l', 'i', 's', 't'] {
        Some(TestEvent::List)
    } else if s == seq!['-', 's'] || s == seq!['-', '-', 's', 'k', 'i', 'p'] {
        Some(TestEvent::RunSome)
    } else {
        None
    }
}

pub open spec fn is_digit(c: char) -> bool {
    '0' <= c && c <= '9'
}

pub open spec fn all_digits(s: Seq<char>) -> bool {
    forall|i: int| 0 <= i < s.len() ==> is_digit(#[trigger] s[i])
}

/// A number's text without its optional leading `+`.
pub open spec fn unsigned_part(s: Seq<char>) -> Seq<char> {
    if s.len() > 0 && s[0] == '+' {
        s.drop_first()
    } else {
        s
    }
}

pub open spec fn digit_value(c: char) -> nat {
    (c as u32 - '0' as u32) as nat
}

/// The number that a string of decimal digits writes.
pub open spec fn digits_value(s: Seq<char>) -> nat
    decreases s.len(),
{
    if s.len() == 0 {
        0
    } else {
        digits_value(s.drop_last()) * 10 + digit_value(s.last())
    }
}

/// The index a (trimmed) token writes, as an unsigned integer in decimal:
/// an optional `+`, then at least one digit, with a value that fits.
pub open spec fn index_of(s: Seq<char>) -> Option<usize> {
    let d = unsigned_part(s);
    if d.len() > 0 && all_digits(d) && digits_value(d) <= usize::MAX {
        Some(digits_value(d) as usize)
    } else {
        None
    }
}

/// The skip indices that the tokens after a skip event write; tokens that
/// write none are dropped.
pub open spec fn skip_indices(toks: Seq<Seq<char>>) -> Seq<usize>
    decreases toks.len(),
{
    if toks.len() == 0 {
        seq![]
    } else {
        let rest = skip_indices(toks.drop_first());
        match index_of(trimmed(toks[0])) {
            Some(n) => seq![n] + rest,
            None => rest,
        }
    }
}

/// Reads non-empty tokens left to right: each names one event, and a skip
/// event takes every remaining token as a candidate index and ends parsing.
pub open spec fn parse_from(toks: Seq<Seq<char>>) -> Option<(Seq<TestEvent>, Seq<usize>)>
    decreases toks.len(),
{
    if toks.len() == 0 {
        Some((seq![], seq![]))
    } else {
        match event_of(toks[0]) {
            None => None,
            Some(TestEvent::RunSome) => Some((seq![TestEvent::RunSome], skip_indices(toks.drop_first()))),
            Some(e) => match parse_from(toks.drop_first()) {
                None => None,
                Some(p) => Some((seq![e] + p.0, p.1)),
            },
        }
    }
}

/// What a command line means: no tokens at all run everything.
pub open spec fn parsed(toks: Seq<Seq<char>>) -> Option<(Seq<TestEvent>, Seq<usize>)> {
    if toks.len() == 0 {
        Some((seq![TestEvent::RunAll], seq![]))
    } else {
        parse_from(toks)
    }
}

pub open spec fn views_of(tokens: Seq<String>) -> Seq<Seq<char>> {
    tokens.map_values(|s: String| s@)
}

impl TestEvent {
    /// The event a single token names.
    pub fn parse_event(s: &str) -> (r: Result<TestEvent, ParseError>)
        ensures
            match event_of(s@) {
                Some(e) => r == Ok::<TestEvent, ParseError>(e),
                None => r == Err::<TestEvent, ParseError>(ParseError::InvalidEvent),
            },
    {
        let cs = chars_of(s);
        let n = cs.len();
        if n == 0 {
            return Ok(TestEvent::RunAll);
        }
        if n == 4 && cs[0] == 'l' && cs[1] == 'i' && cs[2] == 's' && cs[3] == 't' {
            assert(s@ =~= seq!['l', 'i', 's', 't']);
            return Ok(TestEvent::List);
        }
        if n == 2 && cs[0] == '-' && cs[1] == 's' {
            assert(s@ =~= seq!['-', 's']);
            return Ok(TestEvent::RunSome);
        }
        if n == 6 && cs[0] == '-' && cs[1] == '-' && cs[2] == 's' && cs[3] == 'k' && cs[4] == 'i'
            && cs[5] == 'p' {
            assert(s@ =~= seq!['-', '-', 's', 'k', 'i', 'p']);
            return Ok(TestEvent::RunSome);
        }
        proof {
            if s@ == seq!['l', 'i', 's', 't'] {
                assert(cs@[3] == 't');
            }
            if s@ == seq!['-', 's'] {
                assert(cs@[1] == 's');
            }
            if s@ == seq!['-', '-', 's', 'k', 'i', 'p'] {
                assert(cs@[5] == 'p');
            }
        }
        Err(ParseError::InvalidEvent)
    }
}

pub open spec fn prepend(
    es: Seq<TestEvent>,
    p: Option<(Seq<TestEvent>, Seq<usize>)>,
) -> Option<(Seq<TestEvent>, Seq<usize>)> {
    match p {
        None => None,
        Some(q) => Some((es + q.0, q.1)),
    }
}

proof fn lemma_digits_prefix(s: Seq<char>, j: int)
    requires
        0 <= j <= s.len(),
    ensures
        digits_value(s.take(j)) <= digits_value(s),
    decreases s.len(),
{
    if j < s.len() {
        assert(s.drop_last().take(j) =~= s.take(j));
        lemma_digits_prefix(s.drop_last(), j);
    } else {
        assert(s.take(j) =~= s);
    }
}

/// The index that the characters `cs` write.
fn index_in(cs: &Vec<char>) -> (r: Option<usize>)
    ensures
        r == index_of(cs@),
{
    let n = cs.len();
    let start: usize = if n > 0 && cs[0] == '+' {
        1
    } else {
        0
    };
    let ghost d = unsigned_part(cs@);
    assert(d =~= cs@.subrange(start as int, n as int));
    if start == n {
        return None;
    }
    let mut value: usize = 0;
    let mut i: usize = start;
    while i < n
        invariant
            start <= i <= n,
            n == cs@.len(),
            d == cs@.subrange(start as int, n as int),
            d == unsigned_part(cs@),
            forall|k: int| start <= k < i ==> is_digit(#[trigger] cs@[k]),
            value == digits_value(cs@.subrange(start as int, i as int)),
        decreases n - i,
    {
        let c = cs[i];
        if !('0' <= c && c <= '9') {
            assert(d[i - start] == c);
            assert(!is_digit(d[i - start]));
            return None;
        }
        let dv = (c as u32 - '0' as u32) as usize;
        let ghost next = cs@.subrange(start as int, i + 1);
        assert(next.drop_last() =~= cs@.subrange(start as int, i as int));
        assert(digits_value(next) == value * 10 + dv);
        if value > (usize::MAX - dv) / 10 {
            proof {
                assert(value * 10 + dv > usize::MAX) by (nonlinear_arith)
                    requires
                        value > (usize::MAX - dv) / 10,
                        dv <= 9,
                ;
                assert(d.take(i + 1 - start) =~= next);
                lemma_digits_prefix(d, i + 1 - start);
                assert(digits_value(d) > usize::MAX);
            }
            return None;
        }
        assert(value * 10 + dv <= usize::MAX) by (nonlinear_arith)
            requires
                value <= (usize::MAX - dv) / 10,
                dv <= 9,
        ;
        value = value * 10 + dv;
        i += 1;
    }
    assert(cs@.subrange(start as int, i as int) =~= d);
    Some(value)
}

/// The index a token writes once trimmed: an optional `+`, then decimal
/// digits only, with a value that fits in `usize`.
pub fn parse_skip_index(t: &str) -> (r: Option<usize>)
    ensures
        r == index_of(t@),
{
    index_in(&chars_of(t))
}

/// Whether `c` is white space.
fn white_space(c: char) -> (r: bool)
    ensures
        r == is_white_space(c),
{
    ('\u{9}' <= c && c <= '\u{d}') || c == ' ' || c == '\u{85}' || c == '\u{a0}' || c == '\u{1680}'
        || ('\u{2000}' <= c && c <= '\u{200a}') || c == '\u{2028}' || c == '\u{2029}' || c
        == '\u{202f}' || c == '\u{205f}' || c == '\u{3000}'
}

/// `cs` without leading and trailing white space.
fn trim_chars(cs: &Vec<char>) -> (r: Vec<char>)
    ensures
        r@ == trimmed(cs@),
{
    let n = cs.len();
    let mut a: usize = 0;
    assert(cs@.subrange(0, n as int) =~= cs@);
    while a < n && white_space(cs[a])
        invariant
            a <= n,
            n == cs@.len(),
            trim_start(cs@) == trim_start(cs@.subrange(a as int, n as int)),
        decreases n - a,
    {
        assert(cs@.subrange(a as int, n as int).drop_first() =~= cs@.subrange(a + 1, n as int));
        a += 1;
    }
    assert(trim_start(cs@) == cs@.subrange(a as int, n as int));
    let mut b: usize = n;
    while b > a && white_space(cs[b - 1])
        invariant
            a <= b <= n,
            n == cs@.len(),
            trim_end(cs@.subrange(a as int, n as int)) == trim_end(cs@.subrange(a as int, b as int)),
        decreases b,
    {
        assert(cs@.subrange(a as int, b as int).drop_last() =~= cs@.subrange(a as int, b - 1));
        b -= 1;
    }
    assert(trim_end(cs@.subrange(a as int, b as int)) == cs@.subrange(a as int, b as int));
    let mut r: Vec<char> = Vec::new();
    let mut i: usize = a;
    while i < b
        invariant
            a <= i <= b <= n,
            n == cs@.len(),
            r@ == cs@.subrange(a as int, i as int),
        decreases b - i,
    {
        r.push(cs[i]);
        assert(r@ =~= cs@.subrange(a as int, i + 1));
        i += 1;
    }
    r
}

/// The index a skip token writes, after trimming surrounding whitespace.
pub fn parse_index(s: &str) -> (r: Option<usize>)
    ensures
        r == index_of(trimmed(s@)),
{
    index_in(&trim_chars(&chars_of(s)))
}

/// The indices that `tokens[from..]` write, in order; the others are dropped.
fn skip_list(tokens: &Vec<String>, from: usize) -> (r: Vec<usize>)
    requires
        from <= tokens@.len(),
    ensures
        r@ == skip_indices(views_of(tokens@).subrange(from as int, tokens@.len() as int)),
{
    let ghost toks = views_of(tokens@);
    let n = tokens.len();
    let mut acc: Vec<usize> = Vec::new();
    let mut j: usize = from;
    while j < n
        invariant
            from <= j <= n,
            n == tokens@.len(),
            toks == views_of(tokens@),
            acc@ + skip_indices(toks.subrange(j as int, n as int)) == skip_indices(
                toks.subrange(from as int, n as int),
            ),
        decreases n - j,
    {
        let ghost rest = toks.subrange(j as int, n as int);
        assert(rest.drop_first() =~= toks.subrange(j + 1, n as int));
        assert(rest[0] == tokens@[j as int]@);
        let idx = parse_index(tokens[j].as_str());
        match idx {
            Some(v) => {
                assert(acc@.push(v) + skip_indices(rest.drop_first()) =~= acc@ + (seq![v]
                    + skip_indices(rest.drop_first())));
                acc.push(v);
            },
            None => {},
        }
        j += 1;
    }
    assert(acc@ + skip_indices(toks.subrange(n as int, n as int)) =~= acc@);
    acc
}

/// Reads a command line. No tokens at all give one `RunAll`; otherwise
/// each token names an event (the empty token `RunAll`, `list` a listing,
/// `-s` or `--skip` a selective run), and a skip event takes every
/// remaining token, trimmed, as a skip index, dropping those that are not
/// numbers, and ends parsing. Any other token is an `InvalidEvent`.
pub fn parse_command(tokens: &Vec<String>) -> (r: Result<Command, ParseError>)
    ensures
        match parsed(views_of(tokens@)) {
            Some(p) => r is Ok && r->Ok_0.events@ == p.0 && r->Ok_0.to_skip@ == p.1,
            None => r is Err && r->Err_0 == ParseError::InvalidEvent,
        },
{
    let ghost toks = views_of(tokens@);
    let n = tokens.len();
    let mut events: Vec<TestEvent> = Vec::new();
    if n == 0 {
        events.push(TestEvent::RunAll);
        assert(events@ =~= seq![TestEvent::RunAll]);
        return Ok(Command { events, to_skip: Vec::new() });
    }
    let mut i: usize = 0;
    assert(toks.subrange(0, n as int) =~= toks);
    while i < n
        invariant
            0 <= i <= n,
            n == tokens@.len(),
            toks == views_of(tokens@),
            parse_from(toks) == prepend(events@, parse_from(toks.subrange(i as int, n as int))),
        decreases n - i,
    {
        let ghost rest = toks.subrange(i as int, n as int);
        assert(rest.drop_first() =~= toks.subrange(i + 1, n as int));
        assert(rest[0] == tokens@[i as int]@);
        let e = TestEvent::parse_event(tokens[i].as_str());
        match e {
            Err(err) => {
                return Err(err);
            },
            Ok(TestEvent::RunSome) => {
                events.push(TestEvent::RunSome);
                let to_skip = skip_list(tokens, i + 1);
                return Ok(Command { events, to_skip });
            },
            Ok(ev) => {
                proof {
                    let tail = parse_from(rest.drop_first());
                    if let Some(q) = tail {
                        assert(events@ + (seq![ev] + q.0) =~= events@.push(ev) + q.0);
                    }
                }
                events.push(ev);
            },
        }
        i += 1;
    }
    assert(events@ + seq![] =~= events@);
    Ok(Command { events, to_skip: Vec::new() })
}

impl core::str::FromStr for TestEvent {
    type Err = ParseError;

    fn from_str(s: &str) -> (r: Result<TestEvent, ParseError>)
        ensures
            match event_of(s@) {
                Some(e) => r == Ok::<TestEvent, ParseError>(e),
                None => r == Err::<TestEvent, ParseError>(ParseError::InvalidEvent),
            },
    {
        TestEvent::parse_event(s)
    }
}

} // verus!
