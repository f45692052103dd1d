//! What the benchmark client decides: its arguments, its schedule, its framing,
//! and whether a run counts.
//!
//! A run fails when the index or a result count that the workload expects is
//! missing, so that a regression cannot masquerade as a fast empty answer.
use vstd::prelude::*;

use crate::text::{
    begins_with, chars_of, decimal_text, same_text, slice_trim_end, slice_trim_space,
    slice_trim_space_end, slice_trim_start, string_of, substring,
};

pub mod laws;

verus! {

/// What to measure.
#[derive(Copy, Clone, Debug, PartialEq, Eq, Structural)]
pub enum Workload {
    /// The way from the start of the server to its first answers.
    Startup,
    /// The latency of answers over time.
    Probe,
}

/// What is wrong with the arguments.
#[derive(Debug)]
pub enum ArgsError {
    /// There are none.
    Usage,
    /// A flag was expected.
    NotAFlag(String),
    /// A flag has no value.
    NoValue(String),
    /// A flag is missing.
    Missing(String),
    /// There is no such workload.
    UnknownWorkload(String),
}

/// The view of an [`ArgsError`].
pub enum ArgsFault {
    Usage,
    NotAFlag(Seq<char>),
    NoValue(Seq<char>),
    Missing(Seq<char>),
    UnknownWorkload(Seq<char>),
}

impl View for ArgsError {
    type V = ArgsFault;

    open spec fn view(&self) -> ArgsFault {
        match *self {
            ArgsError::Usage => ArgsFault::Usage,
            ArgsError::NotAFlag(flag) => ArgsFault::NotAFlag(flag@),
            ArgsError::NoValue(key) => ArgsFault::NoValue(key@),
            ArgsError::Missing(key) => ArgsFault::Missing(key@),
            ArgsError::UnknownWorkload(name) => ArgsFault::UnknownWorkload(name@),
        }
    }
}

/// What is said of a fault.
pub open spec fn fault_text(fault: ArgsFault) -> Seq<char> {
    match fault {
        ArgsFault::Usage => "usage: jabar-bench <startup|probe> [--flag value ...]"@,
        ArgsFault::NotAFlag(flag) => "expected --flag, got `"@ + flag + "`"@,
        ArgsFault::NoValue(key) => "flag `--"@ + key + "` needs a value"@,
        ArgsFault::Missing(key) => "missing required --"@ + key,
        ArgsFault::UnknownWorkload(name) => "unknown workload `"@ + name
            + "`; expected `startup` or `probe`"@,
    }
}

impl ArgsError {
    /// Says what is wrong.
    pub fn describe(&self) -> (text: String)
        ensures
            text@ == fault_text(self@),
    {
        let mut text = String::new();
        match self {
            ArgsError::Usage => {
                text.append("usage: jabar-bench <startup|probe> [--flag value ...]");
            },
            ArgsError::NotAFlag(flag) => {
                text.append("expected --flag, got `");
                text.append(flag.as_str());
                text.append("`");
            },
            ArgsError::NoValue(key) => {
                text.append("flag `--");
                text.append(key.as_str());
                text.append("` needs a value");
            },
            ArgsError::Missing(key) => {
                text.append("missing required --");
                text.append(key.as_str());
            },
            ArgsError::UnknownWorkload(name) => {
                text.append("unknown workload `");
                text.append(name.as_str());
                text.append("`; expected `startup` or `probe`");
            },
        }
        assert(text@ =~= fault_text(self@));
        text
    }
}

/// The key of a flag.
pub open spec fn key_in(flag: Seq<char>) -> Option<Seq<char>> {
    if flag.len() >= 2 && flag[0] == '-' && flag[1] == '-' {
        Some(flag.skip(2))
    } else {
        None
    }
}

/// The options from an argument on: flags, each with its value. A later value of
/// a flag takes the place of an earlier one.
pub open spec fn options(raw: Seq<Seq<char>>, from: int, known: Map<Seq<char>, Seq<char>>) -> Result<
    Map<Seq<char>, Seq<char>>,
    ArgsFault,
>
    decreases raw.len() - from,
{
    if from >= raw.len() {
        Ok(known)
    } else {
        match key_in(raw[from]) {
            None => Err(ArgsFault::NotAFlag(raw[from])),
            Some(key) => if from + 1 >= raw.len() {
                Err(ArgsFault::NoValue(key))
            } else {
                options(raw, from + 2, known.insert(key, raw[from + 1]))
            },
        }
    }
}

/// The arguments of the client.
#[derive(Debug)]
pub struct Args {
    pub command: String,
    pub opts: Vec<(String, String)>,
}

/// The values of options by key, the last of each.
pub open spec fn option_map(options: Seq<(String, String)>) -> Map<Seq<char>, Seq<char>>
    decreases options.len(),
{
    if options.len() == 0 {
        Map::empty()
    } else {
        option_map(options.drop_last()).insert(options.last().0@, options.last().1@)
    }
}

impl View for Args {
    type V = Map<Seq<char>, Seq<char>>;

    open spec fn view(&self) -> Map<Seq<char>, Seq<char>> {
        option_map(self.opts@)
    }
}

/// Computes [`key_in`].
fn key_of_flag(flag: &str) -> (key: Option<String>)
    ensures
        crate::config::text_of(key) == key_in(flag@),
{
    let chars = chars_of(flag);
    if chars.len() >= 2 && chars[0] == '-' && chars[1] == '-' {
        let key = substring(chars.as_slice(), 2, chars.len());
        assert(key@ =~= flag@.skip(2));
        Some(key)
    } else {
        None
    }
}

impl Args {
    /// Reads the arguments: the workload, then flags with their values.
    pub fn parse(raw: &Vec<String>) -> (args: Result<Args, ArgsError>)
        ensures
            ({
                let texts = crate::text::texts(raw@);
                if texts.len() == 0 {
                    args matches Err(error) && error@ == ArgsFault::Usage
                } else {
                    match options(texts, 1, Map::empty()) {
                        Ok(known) => args matches Ok(args) && args.command@ == texts[0] && args@
                            == known,
                        Err(fault) => args matches Err(error) && error@ == fault,
                    }
                }
            }),
    {
        let ghost texts = crate::text::texts(raw@);
        if raw.len() == 0 {
            return Err(ArgsError::Usage);
        }
        let command = raw[0].clone();
        assert(command@ == texts[0]);
        let mut found: Vec<(String, String)> = Vec::new();
        let mut i: usize = 1;
        while i < raw.len()
            invariant
                1 <= i <= raw@.len(),
                texts == crate::text::texts(raw@),
                options(texts, 1, Map::empty()) == options(texts, i as int, option_map(found@)),
            decreases raw@.len() - i,
        {
            assert(texts[i as int] == raw@[i as int]@);
            let key = match key_of_flag(raw[i].as_str()) {
                Some(key) => key,
                None => {
                    return Err(ArgsError::NotAFlag(raw[i].clone()));
                },
            };
            if i + 1 >= raw.len() {
                return Err(ArgsError::NoValue(key));
            }
            assert(texts[i + 1] == raw@[i + 1]@);
            let value = raw[i + 1].clone();
            let ghost before = found@;
            found.push((key, value));
            assert(found@.drop_last() =~= before);
            i += 2;
        }
        Ok(Args { command, opts: found })
    }

    /// The value of an option.
    pub fn opt(&self, key: &str) -> (value: Option<&str>)
        ensures
            (match value {
                Some(value) => Some(value@),
                None => None,
            }) == (if self@.contains_key(key@) {
                Some(self@[key@])
            } else {
                None
            }),
    {
        let mut left: usize = self.opts.len();
        assert(self.opts@.take(left as int) =~= self.opts@);
        while left > 0
            invariant
                left <= self.opts@.len(),
                option_map(self.opts@).contains_key(key@) == option_map(
                    self.opts@.take(left as int),
                ).contains_key(key@),
                option_map(self.opts@).contains_key(key@) ==> option_map(self.opts@)[key@]
                    == option_map(self.opts@.take(left as int))[key@],
            decreases left,
        {
            let ghost front = self.opts@.take(left as int);
            proof {
                assert(front.drop_last() =~= self.opts@.take(left - 1));
            }
            left -= 1;
            if same_text(self.opts[left].0.as_str(), key) {
                return Some(self.opts[left].1.as_str());
            }
        }
        None
    }

    /// The value of an option that has to be there.
    pub fn get(&self, key: &str) -> (value: Result<&str, ArgsError>)
        ensures
            match value {
                Ok(value) => self@.contains_key(key@) && value@ == self@[key@],
                Err(error) => !self@.contains_key(key@) && error@ == ArgsFault::Missing(key@),
            },
    {
        match self.opt(key) {
            Some(value) => Ok(value),
            None => Err(ArgsError::Missing(key.to_owned())),
        }
    }

    /// What to measure.
    pub fn workload(&self) -> (workload: Result<Workload, ArgsError>)
        ensures
            match workload {
                Ok(Workload::Startup) => self.command@ == "startup"@,
                Ok(Workload::Probe) => self.command@ == "probe"@,
                Err(error) => self.command@ != "startup"@ && self.command@ != "probe"@ && error@
                    == ArgsFault::UnknownWorkload(self.command@),
            },
    {
        proof {
            reveal_strlit("startup");
            reveal_strlit("probe");
            assert("startup"@.len() != "probe"@.len());
        }
        if same_text(self.command.as_str(), "startup") {
            Ok(Workload::Startup)
        } else if same_text(self.command.as_str(), "probe") {
            Ok(Workload::Probe)
        } else {
            Err(ArgsError::UnknownWorkload(self.command.clone()))
        }
    }
}

/// What a startup run fails for.
pub open spec fn startup_faults(
    loaded: bool,
    query: Seq<char>,
    returned: nat,
    expected: nat,
) -> Seq<Seq<char>> {
    let first = if loaded {
        Seq::empty()
    } else {
        seq!["index not loaded at startup"@]
    };
    if returned < expected {
        first.push(
            "query `"@ + query + "` returned "@ + crate::text::decimal(returned) + ", expected >= "@
                + crate::text::decimal(expected),
        )
    } else {
        first
    }
}

/// What a startup run fails for: an index that was not loaded, a query that did
/// not meet its floor. A run that fails these is a failed run, not a fast one.
pub fn startup_failures(loaded: bool, query: &str, returned: usize, expected: usize) -> (failures:
    Vec<String>)
    ensures
        crate::text::texts(failures@) == startup_faults(
            loaded,
            query@,
            returned as nat,
            expected as nat,
        ),
{
    let mut failures: Vec<String> = Vec::new();
    let ghost first: Seq<Seq<char>> = if loaded {
        Seq::empty()
    } else {
        seq!["index not loaded at startup"@]
    };
    if !loaded {
        failures.push("index not loaded at startup".to_owned());
    }
    assert(crate::text::texts(failures@) =~= first);
    if returned < expected {
        let mut text = "query `".to_owned();
        text.append(query);
        text.append("` returned ");
        let number = decimal_text(returned as u128);
        text.append(number.as_str());
        text.append(", expected >= ");
        let number = decimal_text(expected as u128);
        text.append(number.as_str());
        let ghost view = text@;
        let ghost before = failures@;
        failures.push(text);
        assert(crate::text::texts(failures@) =~= crate::text::texts(before).push(view));
    }
    failures
}

/// The number that decimal digits stand for.
pub open spec fn digits_value(digits: Seq<char>) -> nat
    decreases digits.len(),
{
    if digits.len() == 0 {
        0
    } else {
        10 * digits_value(digits.drop_last()) + (digits.last() as nat - '0' as nat) as nat
    }
}

/// Whether a text is one or more decimal digits.
pub open spec fn are_digits(text: Seq<char>) -> bool {
    text.len() > 0 && forall|i: int| 0 <= i < text.len() ==> '0' <= #[trigger] text[i] <= '9'
}

/// The number that a text is: decimal digits, perhaps behind a plus sign.
pub open spec fn number_in(text: Seq<char>) -> Option<nat> {
    let digits = if text.len() > 0 && text[0] == '+' {
        text.drop_first()
    } else {
        text
    };
    if are_digits(digits) {
        Some(digits_value(digits))
    } else {
        None
    }
}

/// Computes [`number_in`], where the number fits.
fn read_number(text: &[char]) -> (number: Option<usize>)
    ensures
        match number {
            Some(number) => number_in(text@) == Some(number as nat),
            None => number_in(text@) matches Some(number) ==> number > usize::MAX,
        },
{
    let signed = text.len() > 0 && text[0] == '+';
    let from: usize = if signed {
        1
    } else {
        0
    };
    let ghost digits = text@.skip(from as int);
    assert(digits =~= if signed {
        text@.drop_first()
    } else {
        text@
    });
    if from >= text.len() {
        return None;
    }
    let mut value: usize = 0;
    let mut over = false;
    let mut i: usize = from;
    assert(digits.take(0) =~= Seq::<char>::empty());
    while i < text.len()
        invariant
            from <= i <= text@.len(),
            digits == text@.skip(from as int),
            number_in(text@) == (if are_digits(digits) {
                Some(digits_value(digits))
            } else {
                None
            }),
            forall|k: int| 0 <= k < i - from ==> '0' <= #[trigger] digits[k] <= '9',
            !over ==> value == digits_value(digits.take(i - from)),
            over ==> digits_value(digits.take(i - from)) > usize::MAX,
        decreases text@.len() - i,
    {
        let c = text[i];
        proof {
            assert(digits[i - from] == c);
            assert(digits.take(i - from + 1).drop_last() =~= digits.take(i - from));
            assert(digits.take(i - from + 1).last() == c);
        }
        if c < '0' || '9' < c {
            assert(!are_digits(digits));
            return None;
        }
        let digit: usize = (c as u32 - 48) as usize;
        if over || value > (usize::MAX - digit) / 10 {
            over = true;
        } else {
            value = value * 10 + digit;
        }
        i += 1;
    }
    assert(digits.take(i - from) =~= digits);
    if over {
        None
    } else {
        Some(value)
    }
}

/// A line of the header of a message.
#[derive(Copy, Clone, Debug, PartialEq, Eq, Structural)]
pub enum HeaderLine {
    /// The header ends.
    End,
    /// The message has this many bytes.
    Length(usize),
    /// The length is no number.
    BadLength,
    /// Something else.
    Other,
}

/// What begins the line with the length.
pub open spec fn length_key() -> Seq<char> {
    "Content-Length:"@
}

/// Whether `found` is what a line of a header says.
pub open spec fn says(line: Seq<char>, found: HeaderLine) -> bool {
    let trimmed = crate::text::space_trimmed_end(line);
    if trimmed.len() == 0 {
        found is End
    } else if length_key().is_prefix_of(trimmed) {
        match number_in(crate::text::space_trimmed(trimmed.skip(length_key().len() as int))) {
            Some(number) => if number <= usize::MAX {
                found == HeaderLine::Length(number as usize)
            } else {
                found is BadLength
            },
            None => found is BadLength,
        }
    } else {
        found is Other
    }
}

/// Reads a line of the header of a message.
pub fn read_header(line: &str) -> (found: HeaderLine)
    ensures
        says(line@, found),
{
    let chars = chars_of(line);
    let trimmed = slice_trim_space_end(chars.as_slice());
    if trimmed.len() == 0 {
        return HeaderLine::End;
    }
    let key = chars_of("Content-Length:");
    if !begins_with(trimmed, key.as_slice()) {
        proof {
            if length_key().is_prefix_of(trimmed@) {
                assert(crate::text::occurs_at(trimmed@, key@, 0)) by {
                    assert(trimmed@.subrange(0, key@.len() as int) =~= key@);
                }
            }
        }
        return HeaderLine::Other;
    }
    proof {
        assert(trimmed@.subrange(0, key@.len() as int) == key@);
        assert(length_key().is_prefix_of(trimmed@));
    }
    let rest = vstd::slice::slice_subrange(trimmed, key.len(), trimmed.len());
    assert(rest@ =~= trimmed@.skip(length_key().len() as int));
    match read_number(slice_trim_space(rest)) {
        Some(length) => HeaderLine::Length(length),
        None => HeaderLine::BadLength,
    }
}

/// The header of a message.
pub open spec fn header_for(length: nat) -> Seq<char> {
    "Content-Length: "@ + crate::text::decimal(length) + "\r\n\r\n"@
}

/// Writes the header of a message with this many bytes.
pub fn write_header(length: usize) -> (header: String)
    ensures
        header@ == header_for(length as nat),
{
    let mut header = "Content-Length: ".to_owned();
    let number = decimal_text(length as u128);
    header.append(number.as_str());
    header.append("\r\n\r\n");
    header
}

/// What a message from the server is to a client that waits for an answer.
#[derive(Copy, Clone, Debug, PartialEq, Eq, Structural)]
pub enum Reply {
    /// A request of the server's own, which is acknowledged so that neither side
    /// waits for the other.
    Acknowledge(i64),
    /// The answer, an error.
    Failed,
    /// The answer.
    Answered,
    /// Something else, such as a notification.
    Ignore,
}

/// What a message is to a client that waits for the answer to `waiting`.
pub fn classify_reply(id: Option<i64>, has_method: bool, has_error: bool, waiting: i64) -> (reply:
    Reply)
    ensures
        reply == (match id {
            Some(id) => if has_method {
                Reply::Acknowledge(id)
            } else if id != waiting {
                Reply::Ignore
            } else if has_error {
                Reply::Failed
            } else {
                Reply::Answered
            },
            None => Reply::Ignore,
        }),
{
    match id {
        Some(id) => {
            if has_method {
                Reply::Acknowledge(id)
            } else if id != waiting {
                Reply::Ignore
            } else if has_error {
                Reply::Failed
            } else {
                Reply::Answered
            }
        },
        None => Reply::Ignore,
    }
}

/// How often the state is asked for, in nanoseconds.
pub const STATUS_PERIOD: u128 = 50_000_000;

/// How often a query is sent, in nanoseconds.
pub const QUERY_PERIOD: u128 = 1_000_000_000;

/// When the probes are due next: each on its own cadence, whether or not the
/// last one was answered in time, so that a stall cannot hide requests.
#[derive(Copy, Clone, Debug, PartialEq, Eq, Structural)]
pub struct Schedule {
    pub next_status: u128,
    pub next_query: u128,
}

/// The time of a probe once it was sent.
pub open spec fn next_time(next: u128, now: u128, period: u128) -> u128 {
    if now < next {
        next
    } else if next + period > u128::MAX {
        u128::MAX
    } else {
        (next + period) as u128
    }
}

impl Schedule {
    /// Everything is due at once.
    pub fn new() -> (schedule: Schedule)
        ensures
            schedule == (Schedule { next_status: 0, next_query: 0 }),
    {
        Schedule { next_status: 0, next_query: 0 }
    }

    /// Says whether the state and whether a query is due, and plans the next.
    pub fn due(&mut self, now: u128) -> (due: (bool, bool))
        ensures
            due.0 == (now >= old(self).next_status),
            due.1 == (now >= old(self).next_query),
            *final(self) == (Schedule {
                next_status: next_time(old(self).next_status, now, STATUS_PERIOD),
                next_query: next_time(old(self).next_query, now, QUERY_PERIOD),
            }),
    {
        let status = now >= self.next_status;
        let query = now >= self.next_query;
        if status {
            self.next_status = self.next_status.saturating_add(STATUS_PERIOD);
        }
        if query {
            self.next_query = self.next_query.saturating_add(QUERY_PERIOD);
        }
        (status, query)
    }
}

/// How long answers took, in nanoseconds, and how many failed.
#[derive(Debug)]
pub struct Latencies {
    /// In ascending order.
    sorted: Vec<u64>,
    errors: usize,
}

/// A summary of latencies.
#[derive(Copy, Clone, Debug, PartialEq, Eq, Structural)]
pub struct LatencySummary {
    pub count: usize,
    pub errors: usize,
    pub p50: Option<u64>,
    pub p95: Option<u64>,
    pub max: Option<u64>,
}

/// Whether samples ascend.
pub open spec fn ascend(samples: Seq<u64>) -> bool {
    forall|i: int, j: int| 0 <= i <= j < samples.len() ==> samples[i] <= samples[j]
}

/// The nearest-rank percentile of ascending samples.
pub open spec fn percentile(sorted: Seq<u64>, percent: int) -> Option<u64> {
    if sorted.len() == 0 {
        None
    } else {
        Some(sorted[crate::telemetry::window::rank_of(sorted.len() as int, percent)])
    }
}

impl Latencies {
    /// The samples in ascending order.
    pub closed spec fn samples(&self) -> Seq<u64> {
        self.sorted@
    }

    /// How many answers failed.
    pub closed spec fn failed(&self) -> usize {
        self.errors
    }

    /// No samples.
    pub fn new() -> (latencies: Latencies)
        ensures
            latencies.samples() == Seq::<u64>::empty(),
            latencies.failed() == 0,
    {
        Latencies { sorted: Vec::new(), errors: 0 }
    }

    /// Adds a sample.
    pub fn record(&mut self, nanos: u64)
        requires
            ascend(old(self).samples()),
        ensures
            ascend(final(self).samples()),
            final(self).samples().to_multiset() == old(self).samples().to_multiset().insert(nanos),
            final(self).failed() == old(self).failed(),
    {
        let mut low: usize = 0;
        let mut high: usize = self.sorted.len();
        while low < high
            invariant
                low <= high <= self.sorted@.len(),
                ascend(self.sorted@),
                self.sorted@ == old(self).sorted@,
                self.errors == old(self).errors,
                forall|i: int| 0 <= i < low ==> self.sorted@[i] <= nanos,
                forall|i: int| high <= i < self.sorted@.len() ==> nanos <= self.sorted@[i],
            decreases high - low,
        {
            let middle: usize = low + (high - low) / 2;
            if self.sorted[middle] <= nanos {
                low = middle + 1;
            } else {
                high = middle;
            }
        }
        let ghost before = self.sorted@;
        self.sorted.insert(low, nanos);
        proof {
            vstd::seq_lib::to_multiset_insert(before, low as int, nanos);
        }
    }

    /// Counts a request that failed.
    pub fn record_error(&mut self)
        ensures
            final(self).samples() == old(self).samples(),
            final(self).failed() == (if old(self).failed() == usize::MAX {
                usize::MAX
            } else {
                (old(self).failed() + 1) as usize
            }),
    {
        self.errors = self.errors.saturating_add(1);
    }

    /// The sample at a nearest-rank percentile.
    fn at_percentile(&self, percent: u128) -> (sample: Option<u64>)
        requires
            1 <= percent <= 100,
        ensures
            sample == percentile(self.samples(), percent as int),
    {
        let n: usize = self.sorted.len();
        if n == 0 {
            return None;
        }
        assert(percent * n <= 100 * n) by (nonlinear_arith)
            requires
                percent <= 100,
        ;
        assert(1 <= percent * n) by (nonlinear_arith)
            requires
                percent >= 1,
                n >= 1,
        ;
        let rank: u128 = (percent * n as u128 + 99) / 100;
        Some(self.sorted[(rank - 1) as usize])
    }

    /// The median, the sample that 95 of a hundred do not exceed, and the
    /// largest.
    pub fn summary(&self) -> (summary: LatencySummary)
        ensures
            summary == (LatencySummary {
                count: self.samples().len() as usize,
                errors: self.failed(),
                p50: percentile(self.samples(), 50),
                p95: percentile(self.samples(), 95),
                max: if self.samples().len() == 0 {
                    None
                } else {
                    Some(self.samples().last())
                },
            }),
    {
        let n: usize = self.sorted.len();
        let max = if n == 0 {
            None
        } else {
            Some(self.sorted[n - 1])
        };
        LatencySummary {
            count: n,
            errors: self.errors,
            p50: self.at_percentile(50),
            p95: self.at_percentile(95),
            max,
        }
    }
}

/// Names the root of a workspace to the server.
pub fn root_uri(root: &str) -> (uri: String)
    ensures
        uri@ == "file://"@ + root@,
{
    let mut uri = "file://".to_owned();
    uri.append(root);
    uri
}

/// Names a file of a workspace to the server.
pub fn file_uri(root: &str, relative: &str) -> (uri: String)
    ensures
        uri@ == "file://"@ + crate::text::trim_end(root@, seq!['/']) + seq!['/']
            + crate::text::trim_start(relative@, seq!['/']),
{
    let slash = ['/'];
    assert(slash@ =~= seq!['/']);
    let base = chars_of(root);
    let rest = chars_of(relative);
    let mut uri = "file://".to_owned();
    let head = string_of(slice_trim_end(base.as_slice(), slash.as_slice()));
    uri.append(head.as_str());
    uri.push('/');
    let tail = string_of(slice_trim_start(rest.as_slice(), slash.as_slice()));
    uri.append(tail.as_str());
    assert(uri@ =~= "file://"@ + crate::text::trim_end(root@, seq!['/']) + seq!['/']
        + crate::text::trim_start(relative@, seq!['/']));
    uri
}

} // verus!
