//! Detecting when the server answers *wrongly*, not just slowly.
//!
//! Ordinary language-server instrumentation measures latency, because a human
//! notices a slow response and re-runs it. An agent does not re-run anything.
//! It takes the first answer as ground truth and writes code on that basis, so
//! the failure that costs most here is the one a latency histogram cannot see:
//! a fast, confident, wrong answer.
//!
//! The sharpest case is the empty result. `workspaceSymbol` returning nothing
//! because the index has not finished building is, on the wire, identical to
//! `workspaceSymbol` returning nothing because the symbol does not exist. The
//! client cannot tell those apart, and one of them makes it delete code that is
//! actually referenced. So [`Outcome::Empty`] carries an [`EmptyReason`], and
//! exactly one reason, [`EmptyReason::NoMatch`], is healthy. Everything else is
//! the server saying "none" when it means "I do not know".
//!
//! # What leaves the process
//!
//! Nothing, on its own. [`Telemetry`] aggregates in memory and the caller
//! decides what to do with [`Telemetry::health`]. The summary holds counts,
//! durations and operation kinds, no paths, no symbol names, no file contents,
//! so it is safe to hand to someone else.
//!
//! Contracts speak of all records that were ever made: every counter is a
//! [`tally`] over them.
use vstd::prelude::*;

use crate::line_index::byte_width;
use crate::telemetry::health::OpHealth;
use crate::telemetry::window::SampleWindow;
use crate::text::chars_of;

pub mod health;
pub mod laws;
pub mod window;

verus! {

/// Something the server was asked to do.
///
/// The first nine are the client-visible operations; the rest are internal
/// steps worth timing separately, because a slow `workspaceSymbol` caused by a
/// slow BSP query is a different problem from a slow index lookup.
#[derive(Copy, Clone, Debug, PartialEq, Eq, Hash, PartialOrd, Ord, Structural)]
pub enum Op {
    WorkspaceSymbol,
    GoToDefinition,
    FindReferences,
    Hover,
    DocumentSymbol,
    GoToImplementation,
    PrepareCallHierarchy,
    IncomingCalls,
    OutgoingCalls,
    /// Resolving a file to its owning Bazel target.
    BspInverseSources,
    /// Fetching a target's sources, classpath, or run environment.
    BspTargetQuery,
    /// Building or loading the shallow global index.
    IndexBuild,
    /// Loading a focus target's transitive slice.
    SliceLoad,
}

/// How many operations there are.
pub const OP_COUNT: usize = 13;

/// Why an operation produced nothing.
///
/// Only [`EmptyReason::NoMatch`] is a real answer. The others are the server
/// not knowing, which the client cannot distinguish on the wire and so must be
/// counted separately here.
#[derive(Copy, Clone, Debug, PartialEq, Eq, Hash, Structural)]
pub enum EmptyReason {
    /// Searched, found nothing. The only healthy empty.
    NoMatch,
    /// The shallow global index was still building.
    IndexNotReady,
    /// The index is loaded, but was built from source older than what is on
    /// disk now, so a symbol the client just wrote is genuinely absent from it.
    ///
    /// Distinct from [`EmptyReason::NoMatch`] precisely because an agent's
    /// first move after writing a file is to ask about what it wrote.
    IndexStale,
    /// The answer lives in a target that was not loaded.
    TargetNotLoaded,
    /// The file is not in any target and was never indexed.
    FileNotIndexed,
    /// The path is one the server does not handle: a jar entry it cannot read,
    /// or a scheme it does not know.
    UnsupportedPath,
}

/// How many reasons for an empty answer there are.
pub const REASON_COUNT: usize = 6;

/// Why an operation could not be completed.
#[derive(Copy, Clone, Debug, PartialEq, Eq, Hash, Structural)]
pub enum Failure {
    /// The build server did not answer, or answered with an error.
    BuildServer,
    /// A file could not be read.
    Io,
    /// A jar or jimage entry could not be decoded.
    ArchiveDecode,
    /// A handler panicked and was caught.
    Panic,
    /// The request named a position or path that does not exist.
    BadRequest,
    /// The index needed to answer was not loaded, or was stale.
    ///
    /// Distinct from [`EmptyReason::IndexNotReady`]: that one records having
    /// *answered* empty while not knowing, which is the damaging case. This one
    /// records having refused, which is the correct behaviour and still worth
    /// counting: a client asking before the index is ready is a startup
    /// ordering problem, not a lie.
    IndexUnavailable,
    /// Something else, deliberately coarse so the summary stays path-free.
    Internal,
}

/// How an operation ended.
#[derive(Copy, Clone, Debug, PartialEq, Eq, Structural)]
pub enum Outcome {
    /// Results were produced.
    ///
    /// `total` is how many exist, `returned` how many were sent. They differ
    /// when the response was trimmed to a token budget, and the gap is exactly
    /// what the client has to be told about: a silently trimmed list makes an
    /// agent conclude it has seen every call site when it has seen the first
    /// twenty.
    Answered { returned: usize, total: usize },
    /// No results, with the reason the caller must supply.
    Empty { reason: EmptyReason },
    /// The operation could not be completed. Honest, and much safer than a
    /// wrong answer: the client retries or tells the user.
    Failed { failure: Failure },
    /// Superseded before it finished. Not a fault.
    Cancelled,
}

/// An assumption the server is supposed to uphold, checked at runtime.
///
/// These fire on the classes of bug that produce plausible-looking wrong
/// answers: a range that is off by a character on a non-ASCII file, a location
/// pointing into a file that has since changed.
#[derive(Copy, Clone, Debug, PartialEq, Eq, Hash, PartialOrd, Ord, Structural)]
pub enum Invariant {
    /// A byte offset landed inside a multi-byte character. The offset is wrong,
    /// and every column derived from it will be too.
    OffsetNotOnCharBoundary,
    /// A range extended past the end of the file it names.
    OffsetOutOfBounds,
    /// A range whose start came after its end.
    RangeInverted,
    /// A result referenced a file the VFS does not know.
    UnknownFile,
    /// A response claimed to return more results than exist.
    ReturnedExceedsTotal,
    /// An answer was produced while the VFS still held undrained writes, so it
    /// was computed from a state the client had already moved past.
    StaleRead,
}

/// How many invariants are checked.
pub const INVARIANT_COUNT: usize = 6;

/// The place of an operation in the list of all.
pub open spec fn op_number(op: Op) -> int {
    match op {
        Op::WorkspaceSymbol => 0,
        Op::GoToDefinition => 1,
        Op::FindReferences => 2,
        Op::Hover => 3,
        Op::DocumentSymbol => 4,
        Op::GoToImplementation => 5,
        Op::PrepareCallHierarchy => 6,
        Op::IncomingCalls => 7,
        Op::OutgoingCalls => 8,
        Op::BspInverseSources => 9,
        Op::BspTargetQuery => 10,
        Op::IndexBuild => 11,
        Op::SliceLoad => 12,
    }
}

/// The operation at a place in the list of all.
pub open spec fn op_at(n: int) -> Op {
    if n == 0 {
        Op::WorkspaceSymbol
    } else if n == 1 {
        Op::GoToDefinition
    } else if n == 2 {
        Op::FindReferences
    } else if n == 3 {
        Op::Hover
    } else if n == 4 {
        Op::DocumentSymbol
    } else if n == 5 {
        Op::GoToImplementation
    } else if n == 6 {
        Op::PrepareCallHierarchy
    } else if n == 7 {
        Op::IncomingCalls
    } else if n == 8 {
        Op::OutgoingCalls
    } else if n == 9 {
        Op::BspInverseSources
    } else if n == 10 {
        Op::BspTargetQuery
    } else if n == 11 {
        Op::IndexBuild
    } else {
        Op::SliceLoad
    }
}

/// Whether a client sees an operation's result directly.
pub open spec fn client_facing(op: Op) -> bool {
    !(op is BspInverseSources || op is BspTargetQuery || op is IndexBuild || op is SliceLoad)
}

/// What an operation is called.
pub open spec fn op_name(op: Op) -> Seq<char> {
    match op {
        Op::WorkspaceSymbol => "workspaceSymbol"@,
        Op::GoToDefinition => "goToDefinition"@,
        Op::FindReferences => "findReferences"@,
        Op::Hover => "hover"@,
        Op::DocumentSymbol => "documentSymbol"@,
        Op::GoToImplementation => "goToImplementation"@,
        Op::PrepareCallHierarchy => "prepareCallHierarchy"@,
        Op::IncomingCalls => "incomingCalls"@,
        Op::OutgoingCalls => "outgoingCalls"@,
        Op::BspInverseSources => "bsp/inverseSources"@,
        Op::BspTargetQuery => "bsp/targetQuery"@,
        Op::IndexBuild => "index/build"@,
        Op::SliceLoad => "slice/load"@,
    }
}

impl Op {
    /// The operation at a place in the list of all.
    pub fn at(n: usize) -> (op: Op)
        requires
            n < OP_COUNT,
        ensures
            op == op_at(n as int),
            op_number(op) == n,
    {
        if n == 0 {
            Op::WorkspaceSymbol
        } else if n == 1 {
            Op::GoToDefinition
        } else if n == 2 {
            Op::FindReferences
        } else if n == 3 {
            Op::Hover
        } else if n == 4 {
            Op::DocumentSymbol
        } else if n == 5 {
            Op::GoToImplementation
        } else if n == 6 {
            Op::PrepareCallHierarchy
        } else if n == 7 {
            Op::IncomingCalls
        } else if n == 8 {
            Op::OutgoingCalls
        } else if n == 9 {
            Op::BspInverseSources
        } else if n == 10 {
            Op::BspTargetQuery
        } else if n == 11 {
            Op::IndexBuild
        } else {
            Op::SliceLoad
        }
    }

    /// The place of the operation in the list of all.
    pub fn number(self) -> (n: usize)
        ensures
            n == op_number(self),
            n < OP_COUNT,
            op_at(n as int) == self,
    {
        match self {
            Op::WorkspaceSymbol => 0,
            Op::GoToDefinition => 1,
            Op::FindReferences => 2,
            Op::Hover => 3,
            Op::DocumentSymbol => 4,
            Op::GoToImplementation => 5,
            Op::PrepareCallHierarchy => 6,
            Op::IncomingCalls => 7,
            Op::OutgoingCalls => 8,
            Op::BspInverseSources => 9,
            Op::BspTargetQuery => 10,
            Op::IndexBuild => 11,
            Op::SliceLoad => 12,
        }
    }

    /// Whether a client sees this operation's result directly. A wrong answer
    /// to one of these reaches the agent; a wrong answer to an internal step
    /// only reaches it after being laundered through one of these.
    pub fn is_client_facing(self) -> (facing: bool)
        ensures
            facing == client_facing(self),
    {
        !matches!(
            self,
            Op::BspInverseSources | Op::BspTargetQuery | Op::IndexBuild | Op::SliceLoad
        )
    }

    /// What the operation is called.
    pub fn name(self) -> (name: &'static str)
        ensures
            name@ == op_name(self),
    {
        match self {
            Op::WorkspaceSymbol => "workspaceSymbol",
            Op::GoToDefinition => "goToDefinition",
            Op::FindReferences => "findReferences",
            Op::Hover => "hover",
            Op::DocumentSymbol => "documentSymbol",
            Op::GoToImplementation => "goToImplementation",
            Op::PrepareCallHierarchy => "prepareCallHierarchy",
            Op::IncomingCalls => "incomingCalls",
            Op::OutgoingCalls => "outgoingCalls",
            Op::BspInverseSources => "bsp/inverseSources",
            Op::BspTargetQuery => "bsp/targetQuery",
            Op::IndexBuild => "index/build",
            Op::SliceLoad => "slice/load",
        }
    }
}

/// Whether results were withheld from the client.
pub open spec fn truncated(outcome: Outcome) -> bool {
    outcome matches Outcome::Answered { returned, total } && returned < total
}

/// Whether the server told the client "nothing" while not actually knowing.
pub open spec fn misleading(outcome: Outcome) -> bool {
    outcome matches Outcome::Empty { reason } && reason !is NoMatch
}

impl Outcome {
    /// Convenience for the common "here are all of them" case.
    pub fn answered(count: usize) -> (outcome: Outcome)
        ensures
            outcome == (Outcome::Answered { returned: count, total: count }),
    {
        Outcome::Answered { returned: count, total: count }
    }

    /// True when results were withheld from the client.
    pub fn is_truncated(&self) -> (yes: bool)
        ensures
            yes == truncated(*self),
    {
        match self {
            Outcome::Answered { returned, total } => *returned < *total,
            _ => false,
        }
    }

    /// True when the server told the client "nothing" while not actually
    /// knowing. This is the number that matters most in a summary.
    pub fn is_misleading(&self) -> (yes: bool)
        ensures
            yes == misleading(*self),
    {
        match self {
            Outcome::Empty { reason } => !reason.is_healthy(),
            _ => false,
        }
    }
}

/// The place of a reason in the list of all.
pub open spec fn reason_number(reason: EmptyReason) -> int {
    match reason {
        EmptyReason::NoMatch => 0,
        EmptyReason::IndexNotReady => 1,
        EmptyReason::IndexStale => 2,
        EmptyReason::TargetNotLoaded => 3,
        EmptyReason::FileNotIndexed => 4,
        EmptyReason::UnsupportedPath => 5,
    }
}

impl EmptyReason {
    /// Whether an empty result for this reason was a truthful answer.
    pub fn is_healthy(self) -> (healthy: bool)
        ensures
            healthy == (self is NoMatch),
    {
        matches!(self, EmptyReason::NoMatch)
    }

    /// The place of the reason in the list of all.
    fn slot(self) -> (n: usize)
        ensures
            n == reason_number(self),
            n < REASON_COUNT,
    {
        match self {
            EmptyReason::NoMatch => 0,
            EmptyReason::IndexNotReady => 1,
            EmptyReason::IndexStale => 2,
            EmptyReason::TargetNotLoaded => 3,
            EmptyReason::FileNotIndexed => 4,
            EmptyReason::UnsupportedPath => 5,
        }
    }
}

/// The place of an invariant in the list of all.
pub open spec fn invariant_number(rule: Invariant) -> int {
    match rule {
        Invariant::OffsetNotOnCharBoundary => 0,
        Invariant::OffsetOutOfBounds => 1,
        Invariant::RangeInverted => 2,
        Invariant::UnknownFile => 3,
        Invariant::ReturnedExceedsTotal => 4,
        Invariant::StaleRead => 5,
    }
}

/// The invariant at a place in the list of all.
pub open spec fn invariant_at(n: int) -> Invariant {
    if n == 0 {
        Invariant::OffsetNotOnCharBoundary
    } else if n == 1 {
        Invariant::OffsetOutOfBounds
    } else if n == 2 {
        Invariant::RangeInverted
    } else if n == 3 {
        Invariant::UnknownFile
    } else if n == 4 {
        Invariant::ReturnedExceedsTotal
    } else {
        Invariant::StaleRead
    }
}

impl Invariant {
    /// The place of the invariant in the list of all.
    pub fn number(self) -> (n: usize)
        ensures
            n == invariant_number(self),
            n < INVARIANT_COUNT,
            invariant_at(n as int) == self,
    {
        match self {
            Invariant::OffsetNotOnCharBoundary => 0,
            Invariant::OffsetOutOfBounds => 1,
            Invariant::RangeInverted => 2,
            Invariant::UnknownFile => 3,
            Invariant::ReturnedExceedsTotal => 4,
            Invariant::StaleRead => 5,
        }
    }

    /// The invariant at a place in the list of all.
    pub fn at(n: usize) -> (rule: Invariant)
        requires
            n < INVARIANT_COUNT,
        ensures
            rule == invariant_at(n as int),
            invariant_number(rule) == n,
    {
        if n == 0 {
            Invariant::OffsetNotOnCharBoundary
        } else if n == 1 {
            Invariant::OffsetOutOfBounds
        } else if n == 2 {
            Invariant::RangeInverted
        } else if n == 3 {
            Invariant::UnknownFile
        } else if n == 4 {
            Invariant::ReturnedExceedsTotal
        } else {
            Invariant::StaleRead
        }
    }
}

/// One completed operation.
#[derive(Copy, Clone, Debug)]
pub struct QueryRecord {
    pub op: Op,
    pub outcome: Outcome,
    /// How long it took, in microseconds.
    pub micros: u128,
    /// The VFS revision the answer was computed from.
    pub vfs_revision: u64,
    /// Whether the VFS held undrained writes when the answer was produced. True
    /// means the answer predates something the client already did.
    pub stale: bool,
}

impl QueryRecord {
    /// A record of an answer that was current.
    pub fn new(op: Op, outcome: Outcome, micros: u128) -> (record: QueryRecord)
        ensures
            record == (QueryRecord { op, outcome, micros, vfs_revision: 0, stale: false }),
    {
        QueryRecord { op, outcome, micros, vfs_revision: 0, stale: false }
    }

    /// Notes the VFS revision the answer was computed from.
    pub fn at_revision(self, revision: u64) -> (record: QueryRecord)
        ensures
            record == (QueryRecord { vfs_revision: revision, ..self }),
    {
        QueryRecord { vfs_revision: revision, ..self }
    }

    /// Marks the answer as computed while writes were still pending.
    pub fn stale(self, stale: bool) -> (record: QueryRecord)
        ensures
            record == (QueryRecord { stale, ..self }),
    {
        QueryRecord { stale, ..self }
    }
}

/// An operation that has not ended yet.
///
/// Whoever holds it records it when it is dropped, so a handler that panics or
/// returns early still produces a record: a spike in unrecorded work cannot hide
/// a bug.
#[derive(Copy, Clone, Debug)]
pub struct InFlight {
    pub op: Op,
    pub revision: u64,
    pub stale: bool,
    pub outcome: Option<Outcome>,
}

/// The record of an operation that ended. No explicit outcome means the handler
/// unwound or returned without saying what happened. That is itself a fault
/// worth counting.
pub open spec fn concluded(operation: InFlight, micros: u128) -> QueryRecord {
    QueryRecord {
        op: operation.op,
        outcome: match operation.outcome {
            Some(outcome) => outcome,
            None => Outcome::Failed { failure: Failure::Panic },
        },
        micros,
        vfs_revision: operation.revision,
        stale: operation.stale,
    }
}

impl InFlight {
    /// Starts an operation.
    pub fn new(op: Op) -> (operation: InFlight)
        ensures
            operation == (InFlight { op, revision: 0, stale: false, outcome: None }),
    {
        InFlight { op, revision: 0, stale: false, outcome: None }
    }

    /// Finishes with an explicit outcome.
    pub fn finish(&mut self, outcome: Outcome)
        ensures
            *final(self) == (InFlight { outcome: Some(outcome), ..*old(self) }),
    {
        self.outcome = Some(outcome);
    }

    /// Notes the VFS revision this answer is being computed from.
    pub fn at_revision(&mut self, revision: u64)
        ensures
            *final(self) == (InFlight { revision, ..*old(self) }),
    {
        self.revision = revision;
    }

    /// Marks the answer as computed while writes were still pending, so it
    /// predates something the client has already done.
    pub fn mark_stale(&mut self, stale: bool)
        ensures
            *final(self) == (InFlight { stale, ..*old(self) }),
    {
        self.stale = stale;
    }

    /// Records a failure, for the error paths that return early.
    pub fn mark_failed(&mut self, failure: Failure)
        ensures
            *final(self) == (InFlight {
                outcome: Some(Outcome::Failed { failure }),
                ..*old(self)
            }),
    {
        self.outcome = Some(Outcome::Failed { failure });
    }

    /// The record of the operation, which took this long.
    pub fn conclude(self, micros: u128) -> (record: QueryRecord)
        ensures
            record == concluded(self, micros),
    {
        let outcome = match self.outcome {
            Some(outcome) => outcome,
            None => Outcome::Failed { failure: Failure::Panic },
        };
        QueryRecord {
            op: self.op,
            outcome,
            micros,
            vfs_revision: self.revision,
            stale: self.stale,
        }
    }
}

/// Whether a byte offset falls between two characters of a text, or at an end.
pub open spec fn on_boundary(text: Seq<char>, offset: int) -> bool {
    exists|k: int|
        0 <= k <= text.len() && #[trigger] crate::line_index::offset_of(text, k) == offset
}

/// What is wrong with a byte range in a text, if anything.
pub open spec fn span_fault(text: Seq<char>, start: int, end: int) -> Option<Invariant> {
    if start > end {
        Some(Invariant::RangeInverted)
    } else if end > crate::line_index::offset_of(text, text.len() as int) {
        Some(Invariant::OffsetOutOfBounds)
    } else if !on_boundary(text, start) || !on_boundary(text, end) {
        Some(Invariant::OffsetNotOnCharBoundary)
    } else {
        None
    }
}

/// Validates a byte range against the text it indexes.
///
/// The boundary check is the one that catches encoding bugs: a UTF-16 offset
/// used as a byte offset lands in the middle of a character and every column
/// after it is wrong.
pub fn check_span(text: &str, start: usize, end: usize) -> (checked: Result<(), Invariant>)
    ensures
        match checked {
            Ok(()) => span_fault(text@, start as int, end as int) is None,
            Err(rule) => span_fault(text@, start as int, end as int) == Some(rule),
        },
{
    if start > end {
        return Err(Invariant::RangeInverted);
    }
    let chars = chars_of(text);
    let n: usize = chars.len();
    let mut k: usize = 0;
    let mut at: usize = 0;
    let mut start_found: bool = start == 0;
    let mut end_found: bool = end == 0;
    proof {
        assert(text@.take(0) =~= Seq::<char>::empty());
        assert(crate::line_index::offset_of(text@, 0) == 0);
    }
    while k < n && at < end
        invariant
            n == chars@.len(),
            chars@ == text@,
            k <= n,
            start <= end,
            at <= end,
            at == crate::line_index::offset_of(text@, k as int),
            start_found == exists|j: int|
                0 <= j <= k && #[trigger] crate::line_index::offset_of(text@, j) == start,
            end_found == exists|j: int|
                0 <= j <= k && #[trigger] crate::line_index::offset_of(text@, j) == end,
        decreases n - k,
    {
        let width = byte_width(chars[k]) as usize;
        proof {
            assert(text@.take(k + 1).drop_last() =~= text@.take(k as int));
            assert(crate::line_index::offset_of(text@, k + 1)
                == crate::line_index::offset_of(text@, k as int) + width);
        }
        if width > end - at {
            proof {
                lemma_beyond(text@, k as int, end as int);
                lemma_end(text@, k + 1);
            }
            return Err(Invariant::OffsetNotOnCharBoundary);
        }
        at = at + width;
        k += 1;
        start_found = start_found || at == start;
        end_found = end_found || at == end;
    }
    proof {
        lemma_end(text@, k as int);
    }
    if at < end {
        assert(text@.take(n as int) =~= text@);
        return Err(Invariant::OffsetOutOfBounds);
    }
    proof {
        lemma_beyond_none(text@, k as int, start as int, end as int);
    }
    if !start_found || !end_found {
        return Err(Invariant::OffsetNotOnCharBoundary);
    }
    Ok(())
}

/// Offsets grow with the index.
proof fn lemma_end(text: Seq<char>, k: int)
    requires
        0 <= k <= text.len(),
    ensures
        crate::line_index::offset_of(text, k) <= crate::line_index::offset_of(
            text,
            text.len() as int,
        ),
{
    crate::line_index::lemma_units_grow(
        text,
        k,
        text.len() as int,
        crate::line_index::PositionEncoding::Utf8,
    );
}

/// An offset strictly inside a character is on no boundary.
proof fn lemma_beyond(text: Seq<char>, k: int, offset: int)
    requires
        0 <= k < text.len(),
        crate::line_index::offset_of(text, k) < offset,
        offset < crate::line_index::offset_of(text, k + 1),
    ensures
        !on_boundary(text, offset),
{
    assert forall|j: int| 0 <= j <= text.len() implies #[trigger] crate::line_index::offset_of(
        text,
        j,
    ) != offset by {
        if j <= k {
            crate::line_index::lemma_units_grow(
                text,
                j,
                k,
                crate::line_index::PositionEncoding::Utf8,
            );
        } else {
            crate::line_index::lemma_units_grow(
                text,
                k + 1,
                j,
                crate::line_index::PositionEncoding::Utf8,
            );
        }
    }
}

/// Past the boundary at an offset, later boundaries are past it too.
proof fn lemma_beyond_none(text: Seq<char>, k: int, start: int, end: int)
    requires
        0 <= k <= text.len(),
        start <= end,
        crate::line_index::offset_of(text, k) == end,
    ensures
        on_boundary(text, start) == exists|j: int|
            0 <= j <= k && #[trigger] crate::line_index::offset_of(text, j) == start,
        on_boundary(text, end) == exists|j: int|
            0 <= j <= k && #[trigger] crate::line_index::offset_of(text, j) == end,
{
    if on_boundary(text, start) {
        let j = choose|j: int|
            0 <= j <= text.len() && #[trigger] crate::line_index::offset_of(text, j) == start;
        if j > k {
            crate::line_index::lemma_units_grow(
                text,
                k,
                j,
                crate::line_index::PositionEncoding::Utf8,
            );
            assert(crate::line_index::offset_of(text, k) == start);
        }
    }
    assert(crate::line_index::offset_of(text, k) == end);
}

/// A number that is kept of an operation's records.
pub enum Counter {
    Total,
    Answered,
    Truncated,
    Withheld,
    Empty(EmptyReason),
    Failed(Failure),
    Cancelled,
    Stale,
}

/// What a record adds to a counter of its operation.
pub open spec fn adds(record: QueryRecord, counter: Counter) -> nat {
    match counter {
        Counter::Total => 1,
        Counter::Answered => if record.outcome is Answered {
            1
        } else {
            0
        },
        Counter::Truncated => if truncated(record.outcome) {
            1
        } else {
            0
        },
        Counter::Withheld => match record.outcome {
            Outcome::Answered { returned, total } => if returned < total {
                (total - returned) as nat
            } else {
                0
            },
            _ => 0,
        },
        Counter::Empty(reason) => if record.outcome == (Outcome::Empty { reason }) {
            1
        } else {
            0
        },
        Counter::Failed(failure) => if record.outcome == (Outcome::Failed { failure }) {
            1
        } else {
            0
        },
        Counter::Cancelled => if record.outcome is Cancelled {
            1
        } else {
            0
        },
        Counter::Stale => if record.stale {
            1
        } else {
            0
        },
    }
}

/// What the records of an operation add to a counter.
pub open spec fn tally(records: Seq<QueryRecord>, op: Op, counter: Counter) -> nat
    decreases records.len(),
{
    if records.len() == 0 {
        0
    } else {
        tally(records.drop_last(), op, counter) + if records.last().op == op {
            adds(records.last(), counter)
        } else {
            0
        }
    }
}

/// How long the operations of a kind took, in microseconds, as far as a sample
/// can say it.
pub open spec fn durations(records: Seq<QueryRecord>, op: Op) -> Seq<u32>
    decreases records.len(),
{
    if records.len() == 0 {
        Seq::empty()
    } else if records.last().op == op {
        durations(records.drop_last(), op).push(sampled(records.last().micros))
    } else {
        durations(records.drop_last(), op)
    }
}

/// A duration as a sample.
pub open spec fn sampled(micros: u128) -> u32 {
    if micros > u32::MAX {
        u32::MAX
    } else {
        micros as u32
    }
}

/// How often an invariant was broken.
pub open spec fn broken_count(violations: Seq<Invariant>, rule: Invariant) -> nat
    decreases violations.len(),
{
    if violations.len() == 0 {
        0
    } else {
        broken_count(violations.drop_last(), rule) + if violations.last() == rule {
            1nat
        } else {
            0
        }
    }
}

/// Whether a counter counts records, and so is at most their number.
pub open spec fn counts_records(counter: Counter) -> bool {
    counter !is Withheld
}

/// No counter of records exceeds their number.
pub proof fn lemma_tally_bound(records: Seq<QueryRecord>, op: Op, counter: Counter)
    requires
        counts_records(counter),
    ensures
        tally(records, op, counter) <= tally(records, op, Counter::Total),
    decreases records.len(),
{
    if records.len() > 0 {
        lemma_tally_bound(records.drop_last(), op, counter);
    }
}

/// How many empty answers of an operation were not truthful.
pub open spec fn misled(records: Seq<QueryRecord>, op: Op) -> nat {
    tally(records, op, Counter::Empty(EmptyReason::IndexNotReady)) + tally(
        records,
        op,
        Counter::Empty(EmptyReason::IndexStale),
    ) + tally(records, op, Counter::Empty(EmptyReason::TargetNotLoaded)) + tally(
        records,
        op,
        Counter::Empty(EmptyReason::FileNotIndexed),
    ) + tally(records, op, Counter::Empty(EmptyReason::UnsupportedPath))
}

/// How many runs of an operation failed.
pub open spec fn failures(records: Seq<QueryRecord>, op: Op) -> nat {
    tally(records, op, Counter::Failed(Failure::BuildServer)) + tally(
        records,
        op,
        Counter::Failed(Failure::Io),
    ) + tally(records, op, Counter::Failed(Failure::ArchiveDecode)) + tally(
        records,
        op,
        Counter::Failed(Failure::Panic),
    ) + tally(records, op, Counter::Failed(Failure::BadRequest)) + tally(
        records,
        op,
        Counter::Failed(Failure::IndexUnavailable),
    ) + tally(records, op, Counter::Failed(Failure::Internal))
}

/// Every record is counted under exactly one outcome: answered, truthfully
/// empty, misleadingly empty, failed or cancelled.
pub proof fn outcomes_add_up(records: Seq<QueryRecord>, op: Op)
    ensures
        tally(records, op, Counter::Total) == tally(records, op, Counter::Answered) + tally(
            records,
            op,
            Counter::Empty(EmptyReason::NoMatch),
        ) + misled(records, op) + failures(records, op) + tally(records, op, Counter::Cancelled),
        tally(records, op, Counter::Truncated) <= tally(records, op, Counter::Answered),
    decreases records.len(),
{
    if records.len() > 0 {
        outcomes_add_up(records.drop_last(), op);
        let last = records.last();
        match last.outcome {
            Outcome::Answered { .. } => {},
            Outcome::Empty { reason } => {},
            Outcome::Failed { failure } => {},
            Outcome::Cancelled => {},
        }
    }
}

/// The counters of one operation.
struct OpStats {
    total: u64,
    answered: u64,
    truncated: u64,
    withheld: u64,
    empty: Vec<u64>,
    failed: Vec<u64>,
    cancelled: u64,
    stale: u64,
    samples: SampleWindow,
}

/// The place of a failure in the list of all.
pub open spec fn failure_number(failure: Failure) -> int {
    match failure {
        Failure::BuildServer => 0,
        Failure::Io => 1,
        Failure::ArchiveDecode => 2,
        Failure::Panic => 3,
        Failure::BadRequest => 4,
        Failure::IndexUnavailable => 5,
        Failure::Internal => 6,
    }
}

/// How many kinds of failure there are.
pub const FAILURE_COUNT: usize = 7;

impl Failure {
    /// The place of the failure in the list of all.
    fn slot(self) -> (n: usize)
        ensures
            n == failure_number(self),
            n < FAILURE_COUNT,
    {
        match self {
            Failure::BuildServer => 0,
            Failure::Io => 1,
            Failure::ArchiveDecode => 2,
            Failure::Panic => 3,
            Failure::BadRequest => 4,
            Failure::IndexUnavailable => 5,
            Failure::Internal => 6,
        }
    }
}

impl OpStats {
    /// Whether these are the counters of `op` after `records`.
    spec fn counts(&self, records: Seq<QueryRecord>, op: Op) -> bool {
        &&& self.total == tally(records, op, Counter::Total)
        &&& self.answered == tally(records, op, Counter::Answered)
        &&& self.truncated == tally(records, op, Counter::Truncated)
        &&& self.withheld == tally(records, op, Counter::Withheld)
        &&& self.empty@.len() == REASON_COUNT
        &&& forall|reason: EmptyReason|
            self.empty@[#[trigger] reason_number(reason)] == tally(
                records,
                op,
                Counter::Empty(reason),
            )
        &&& self.failed@.len() == FAILURE_COUNT
        &&& forall|failure: Failure|
            self.failed@[#[trigger] failure_number(failure)] == tally(
                records,
                op,
                Counter::Failed(failure),
            )
        &&& self.cancelled == tally(records, op, Counter::Cancelled)
        &&& self.stale == tally(records, op, Counter::Stale)
        &&& self.samples@ == durations(records, op)
    }

    /// The counters before anything was recorded.
    fn new() -> (stats: OpStats)
        ensures
            forall|op: Op| #[trigger] stats.counts(Seq::empty(), op),
    {
        OpStats {
            total: 0,
            answered: 0,
            truncated: 0,
            withheld: 0,
            empty: vec![0, 0, 0, 0, 0, 0],
            failed: vec![0, 0, 0, 0, 0, 0, 0],
            cancelled: 0,
            stale: 0,
            samples: SampleWindow::new(),
        }
    }

    /// Counts a record of the operation.
    fn add(&mut self, record: QueryRecord, Ghost(records): Ghost<Seq<QueryRecord>>)
        requires
            old(self).counts(records, record.op),
            tally(records, record.op, Counter::Total) < u64::MAX,
            tally(records, record.op, Counter::Withheld) + adds(record, Counter::Withheld)
                <= u64::MAX,
        ensures
            final(self).counts(records.push(record), record.op),
    {
        let ghost op = record.op;
        let ghost after = records.push(record);
        proof {
            assert(after.drop_last() =~= records);
            lemma_tally_bound(records, op, Counter::Answered);
            lemma_tally_bound(records, op, Counter::Truncated);
            lemma_tally_bound(records, op, Counter::Cancelled);
            lemma_tally_bound(records, op, Counter::Stale);
        }
        let micros: u32 = if record.micros > 0xffff_ffff {
            0xffff_ffff
        } else {
            record.micros as u32
        };
        self.total = self.total + 1;
        self.samples.push(micros);
        if record.stale {
            self.stale = self.stale + 1;
        }
        match record.outcome {
            Outcome::Answered { returned, total } => {
                self.answered = self.answered + 1;
                if returned < total {
                    self.truncated = self.truncated + 1;
                    self.withheld = self.withheld + (total - returned) as u64;
                }
            },
            Outcome::Empty { reason } => {
                let slot: usize = reason.slot();
                proof {
                    lemma_tally_bound(records, op, Counter::Empty(reason));
                }
                let count: u64 = self.empty[slot];
                self.empty.set(slot, count + 1);
            },
            Outcome::Failed { failure } => {
                let slot: usize = failure.slot();
                proof {
                    lemma_tally_bound(records, op, Counter::Failed(failure));
                }
                let count: u64 = self.failed[slot];
                self.failed.set(slot, count + 1);
            },
            Outcome::Cancelled => {
                self.cancelled = self.cancelled + 1;
            },
        }
    }
}

/// What was recorded, in turn.
#[verifier::ext_equal]
pub struct TelemetryView {
    pub records: Seq<QueryRecord>,
    pub violations: Seq<Invariant>,
}

/// Whether another record can be counted: no counter of its operation would
/// exceed what a number holds.
pub open spec fn countable(records: Seq<QueryRecord>, record: QueryRecord) -> bool {
    &&& tally(records, record.op, Counter::Total) < u64::MAX
    &&& tally(records, record.op, Counter::Withheld) + adds(record, Counter::Withheld)
        <= u64::MAX
}

/// Aggregates operation outcomes in memory.
///
/// Cheap enough to call on every request: a few counter bumps, against work
/// measured in milliseconds.
pub struct Telemetry {
    ops: Vec<OpStats>,
    broken: Vec<usize>,
    seen: Ghost<TelemetryView>,
}

impl View for Telemetry {
    type V = TelemetryView;

    closed spec fn view(&self) -> TelemetryView {
        self.seen@
    }
}

impl Telemetry {
    /// Whether the counters are those of what was recorded.
    pub closed spec fn wf(&self) -> bool {
        &&& self.ops@.len() == OP_COUNT
        &&& forall|op: Op|
            self.ops@[#[trigger] op_number(op)].counts(self.seen@.records, op)
        &&& self.broken@.len() == INVARIANT_COUNT
        &&& forall|rule: Invariant|
            self.broken@[#[trigger] invariant_number(rule)] == broken_count(
                self.seen@.violations,
                rule,
            )
    }

    /// What was recorded was counted, so the counts fit.
    pub proof fn lemma_counts_fit(&self, op: Op, rule: Invariant)
        requires
            self.wf(),
        ensures
            tally(self@.records, op, Counter::Total) <= u64::MAX,
            tally(self@.records, op, Counter::Withheld) <= u64::MAX,
            broken_count(self@.violations, rule) <= usize::MAX,
    {
        assert(self.ops@[op_number(op)].counts(self.seen@.records, op));
        assert(self.broken@[invariant_number(rule)] == broken_count(self.seen@.violations, rule));
    }

    /// Telemetry that has seen nothing.
    pub fn new() -> (telemetry: Telemetry)
        ensures
            telemetry.wf(),
            telemetry@.records == Seq::<QueryRecord>::empty(),
            telemetry@.violations == Seq::<Invariant>::empty(),
    {
        let mut ops: Vec<OpStats> = Vec::new();
        let mut n: usize = 0;
        while n < OP_COUNT
            invariant
                n <= OP_COUNT,
                ops@.len() == n,
                forall|i: int, op: Op|
                    0 <= i < n ==> #[trigger] ops@[i].counts(Seq::empty(), op),
            decreases OP_COUNT - n,
        {
            ops.push(OpStats::new());
            n += 1;
        }
        Telemetry {
            ops,
            broken: vec![0, 0, 0, 0, 0, 0],
            seen: Ghost(TelemetryView { records: Seq::empty(), violations: Seq::empty() }),
        }
    }

    /// Starts an operation, which is recorded once it ended.
    pub fn start(&self, op: Op) -> (operation: InFlight)
        ensures
            operation == (InFlight { op, revision: 0, stale: false, outcome: None }),
    {
        InFlight::new(op)
    }

    /// Whether another record can be counted.
    pub fn can_record(&self, record: QueryRecord) -> (yes: bool)
        requires
            self.wf(),
        ensures
            yes == countable(self@.records, record),
    {
        let slot: usize = record.op.number();
        assert(self.ops@[op_number(record.op)].counts(self.seen@.records, record.op));
        let stats = &self.ops[slot];
        if stats.total == 0xffff_ffff_ffff_ffff {
            return false;
        }
        match record.outcome {
            Outcome::Answered { returned, total } => {
                if returned < total {
                    (total - returned) as u64 <= 0xffff_ffff_ffff_ffff - stats.withheld
                } else {
                    true
                }
            },
            _ => true,
        }
    }

    /// Records a completed operation.
    pub fn record(&mut self, record: QueryRecord)
        requires
            old(self).wf(),
            countable(old(self)@.records, record),
        ensures
            final(self).wf(),
            final(self)@.records == old(self)@.records.push(record),
            final(self)@.violations == old(self)@.violations,
    {
        let slot: usize = record.op.number();
        let ghost records = self.seen@.records;
        let ghost after = records.push(record);
        proof {
            assert(self.ops@[op_number(record.op)].counts(records, record.op));
        }
        let mut stats = OpStats::new();
        std::mem::swap(&mut stats, &mut self.ops[slot]);
        stats.add(record, Ghost(records));
        self.ops.set(slot, stats);
        self.seen = Ghost(TelemetryView { records: after, ..self.seen@ });
        proof {
            assert(after.drop_last() =~= records);
            assert forall|op: Op| self.ops@[#[trigger] op_number(op)].counts(after, op) by {
                if op != record.op {
                    assert(op_number(op) != op_number(record.op)) by {
                        assert(op_at(op_number(op)) == op);
                        assert(op_at(op_number(record.op)) == record.op);
                    }
                    assert(old(self).ops@[op_number(op)].counts(records, op));
                }
            }
        }
    }

    /// Records a broken assumption. Never panics: a language server that dies
    /// on a bad range is worse than one that reports it and carries on.
    pub fn record_violation(&mut self, rule: Invariant)
        requires
            old(self).wf(),
            broken_count(old(self)@.violations, rule) < usize::MAX,
        ensures
            final(self).wf(),
            final(self)@.records == old(self)@.records,
            final(self)@.violations == old(self)@.violations.push(rule),
    {
        let slot: usize = rule.number();
        let ghost violations = self.seen@.violations;
        let ghost after = violations.push(rule);
        let count: usize = self.broken[slot];
        proof {
            assert(self.broken@[invariant_number(rule)] == broken_count(violations, rule));
        }
        self.broken.set(slot, count + 1);
        self.seen = Ghost(TelemetryView { violations: after, ..self.seen@ });
        proof {
            assert(after.drop_last() =~= violations);
            assert forall|other: Invariant|
                self.broken@[#[trigger] invariant_number(other)] == broken_count(
                    after,
                    other,
                ) by {
                if other != rule {
                    assert(invariant_number(other) != invariant_number(rule)) by {
                        assert(invariant_at(invariant_number(other)) == other);
                        assert(invariant_at(invariant_number(rule)) == rule);
                    }
                    assert(old(self).broken@[invariant_number(other)] == broken_count(
                        violations,
                        other,
                    ));
                }
            }
            assert(forall|op: Op|
                old(self).ops@[#[trigger] op_number(op)].counts(self.seen@.records, op));
        }
    }

    /// The summary of an operation, if it was ever recorded.
    pub fn op_health(&self, op: Op) -> (health: Option<OpHealth>)
        requires
            self.wf(),
        ensures
            health == (if tally(self@.records, op, Counter::Total) > 0 {
                Some(crate::telemetry::health::op_health(self@.records, op))
            } else {
                None
            }),
    {
        let slot: usize = op.number();
        let ghost records = self.seen@.records;
        assert(self.ops@[op_number(op)].counts(records, op));
        let stats = &self.ops[slot];
        if stats.total == 0 {
            return None;
        }
        proof {
            outcomes_add_up(records, op);
            assert(stats.empty@[reason_number(EmptyReason::NoMatch)] == tally(
                records,
                op,
                Counter::Empty(EmptyReason::NoMatch),
            ));
            assert(stats.empty@[reason_number(EmptyReason::IndexNotReady)] == tally(
                records,
                op,
                Counter::Empty(EmptyReason::IndexNotReady),
            ));
            assert(stats.empty@[reason_number(EmptyReason::IndexStale)] == tally(
                records,
                op,
                Counter::Empty(EmptyReason::IndexStale),
            ));
            assert(stats.empty@[reason_number(EmptyReason::TargetNotLoaded)] == tally(
                records,
                op,
                Counter::Empty(EmptyReason::TargetNotLoaded),
            ));
            assert(stats.empty@[reason_number(EmptyReason::FileNotIndexed)] == tally(
                records,
                op,
                Counter::Empty(EmptyReason::FileNotIndexed),
            ));
            assert(stats.empty@[reason_number(EmptyReason::UnsupportedPath)] == tally(
                records,
                op,
                Counter::Empty(EmptyReason::UnsupportedPath),
            ));
            assert(stats.failed@[failure_number(Failure::BuildServer)] == tally(
                records,
                op,
                Counter::Failed(Failure::BuildServer),
            ));
            assert(stats.failed@[failure_number(Failure::Io)] == tally(
                records,
                op,
                Counter::Failed(Failure::Io),
            ));
            assert(stats.failed@[failure_number(Failure::ArchiveDecode)] == tally(
                records,
                op,
                Counter::Failed(Failure::ArchiveDecode),
            ));
            assert(stats.failed@[failure_number(Failure::Panic)] == tally(
                records,
                op,
                Counter::Failed(Failure::Panic),
            ));
            assert(stats.failed@[failure_number(Failure::BadRequest)] == tally(
                records,
                op,
                Counter::Failed(Failure::BadRequest),
            ));
            assert(stats.failed@[failure_number(Failure::IndexUnavailable)] == tally(
                records,
                op,
                Counter::Failed(Failure::IndexUnavailable),
            ));
            assert(stats.failed@[failure_number(Failure::Internal)] == tally(
                records,
                op,
                Counter::Failed(Failure::Internal),
            ));
        }
        let misleading_empty: u64 = stats.empty[1] + stats.empty[2] + stats.empty[3]
            + stats.empty[4] + stats.empty[5];
        let failed: u64 = stats.failed[0] + stats.failed[1] + stats.failed[2] + stats.failed[3]
            + stats.failed[4] + stats.failed[5] + stats.failed[6];
        let (p50_micros, p95_micros, p99_micros) = stats.samples.percentiles();
        Some(
            OpHealth {
                op,
                total: stats.total,
                answered: stats.answered,
                empty_no_match: stats.empty[0],
                misleading_empty,
                truncated: stats.truncated,
                results_withheld: stats.withheld,
                failed,
                cancelled: stats.cancelled,
                stale_reads: stats.stale,
                p50_micros,
                p95_micros,
                p99_micros,
            },
        )
    }

    /// How many durations of an operation are kept.
    pub fn sample_count(&self, op: Op) -> (n: usize)
        requires
            self.wf(),
        ensures
            n == crate::telemetry::window::recent(durations(self@.records, op)).len(),
    {
        let slot: usize = op.number();
        assert(self.ops@[op_number(op)].counts(self.seen@.records, op));
        self.ops[slot].samples.len()
    }

    /// How often an invariant was broken.
    pub fn violation_count(&self, rule: Invariant) -> (count: usize)
        requires
            self.wf(),
        ensures
            count == broken_count(self@.violations, rule),
    {
        let slot: usize = rule.number();
        assert(self.broken@[invariant_number(rule)] == broken_count(self.seen@.violations, rule));
        self.broken[slot]
    }

    /// Checks a byte range against the text it indexes, recording any problem.
    ///
    /// Returns whether the range was sound, so a caller can decline to send a
    /// result it cannot vouch for.
    pub fn check_span(&mut self, text: &str, start: usize, end: usize) -> (sound: bool)
        requires
            old(self).wf(),
            forall|rule: Invariant| #[trigger]
                broken_count(old(self)@.violations, rule) < usize::MAX,
        ensures
            final(self).wf(),
            final(self)@.records == old(self)@.records,
            match span_fault(text@, start as int, end as int) {
                Some(rule) => !sound && final(self)@.violations == old(self)@.violations.push(
                    rule,
                ),
                None => sound && final(self)@.violations == old(self)@.violations,
            },
    {
        match check_span(text, start, end) {
            Ok(()) => true,
            Err(rule) => {
                self.record_violation(rule);
                false
            },
        }
    }
}

} // verus!
