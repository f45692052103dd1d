//! How queries are counted, and what is raised about them.
use vstd::prelude::*;

use crate::telemetry::health::{Concern, OpHealth};
use crate::telemetry::{
    Counter, EmptyReason, Failure, InFlight, Invariant, Op, Outcome, QueryRecord,
};

verus! {

/// An answer is misleading where it is empty for any reason but that nothing
/// matched. It is truncated where fewer results were returned than there are.
pub proof fn empty_answers_mislead_unless_nothing_matched(
    reason: EmptyReason,
    failure: Failure,
    returned: usize,
    total: usize,
)
    ensures
        crate::telemetry::misleading(Outcome::Empty { reason }) <==> !(reason is NoMatch),
        !crate::telemetry::misleading(Outcome::Answered { returned, total }),
        !crate::telemetry::misleading(Outcome::Failed { failure }),
        !crate::telemetry::misleading(Outcome::Cancelled),
        crate::telemetry::truncated(Outcome::Answered { returned, total }) <==> returned < total,
        !crate::telemetry::truncated(Outcome::Empty { reason }),
        !crate::telemetry::truncated(Outcome::Failed { failure }),
        !crate::telemetry::truncated(Outcome::Cancelled),
{
}

/// A list that found nothing is a truthful empty answer; any other says how many
/// there are.
pub proof fn lists_say_how_many_there_are(returned: usize, total: usize)
    ensures
        total == 0 ==> crate::handlers::listed(returned, total) == (Outcome::Empty {
            reason: EmptyReason::NoMatch,
        }),
        total > 0 ==> crate::handlers::listed(returned, total) == (Outcome::Answered {
            returned,
            total,
        }),
        !crate::telemetry::misleading(crate::handlers::listed(returned, total)),
{
}

/// Clients see the results of the queries, and not of what the server does for
/// itself.
pub proof fn clients_see_queries(op: Op)
    ensures
        crate::telemetry::client_facing(op) <==> (op is WorkspaceSymbol || op is GoToDefinition
            || op is FindReferences || op is Hover || op is DocumentSymbol || op
            is GoToImplementation || op is PrepareCallHierarchy || op is IncomingCalls || op
            is OutgoingCalls),
{
}

/// An operation that ended is recorded as what it said of itself. One that said
/// nothing has crashed.
pub proof fn ends_are_recorded(operation: InFlight, micros: u128)
    ensures
        ({
            let record = crate::telemetry::concluded(operation, micros);
            &&& record.op == operation.op
            &&& record.micros == micros
            &&& record.vfs_revision == operation.revision
            &&& record.stale == operation.stale
            &&& operation.outcome matches Some(outcome) ==> record.outcome == outcome
            &&& operation.outcome is None ==> record.outcome == (Outcome::Failed {
                failure: Failure::Panic,
            })
        }),
{
}

/// A record is counted for its own operation, once in all and once for how it
/// ended, and what was withheld by how many. It changes no other count.
pub proof fn records_are_counted_once(
    records: Seq<QueryRecord>,
    record: QueryRecord,
    op: Op,
    reason: EmptyReason,
    failure: Failure,
)
    ensures
        ({
            let after = records.push(record);
            let mine = record.op == op;
            let one = |b: bool| if mine && b {
                1int
            } else {
                0int
            };
            &&& crate::telemetry::tally(Seq::empty(), op, Counter::Total) == 0
            &&& crate::telemetry::tally(after, op, Counter::Total) == crate::telemetry::tally(
                records,
                op,
                Counter::Total,
            ) + one(true)
            &&& crate::telemetry::tally(after, op, Counter::Answered) == crate::telemetry::tally(
                records,
                op,
                Counter::Answered,
            ) + one(record.outcome is Answered)
            &&& crate::telemetry::tally(after, op, Counter::Cancelled) == crate::telemetry::tally(
                records,
                op,
                Counter::Cancelled,
            ) + one(record.outcome is Cancelled)
            &&& crate::telemetry::tally(after, op, Counter::Stale) == crate::telemetry::tally(
                records,
                op,
                Counter::Stale,
            ) + one(record.stale)
            &&& crate::telemetry::tally(after, op, Counter::Empty(reason))
                == crate::telemetry::tally(records, op, Counter::Empty(reason)) + one(
                record.outcome == (Outcome::Empty { reason }),
            )
            &&& crate::telemetry::tally(after, op, Counter::Failed(failure))
                == crate::telemetry::tally(records, op, Counter::Failed(failure)) + one(
                record.outcome == (Outcome::Failed { failure }),
            )
            &&& crate::telemetry::tally(after, op, Counter::Truncated) == crate::telemetry::tally(
                records,
                op,
                Counter::Truncated,
            ) + one(
                record.outcome matches Outcome::Answered { returned, total } && returned < total,
            )
            &&& crate::telemetry::tally(after, op, Counter::Withheld) == crate::telemetry::tally(
                records,
                op,
                Counter::Withheld,
            ) + (match record.outcome {
                Outcome::Answered { returned, total } if mine && returned < total => total
                    - returned,
                _ => 0int,
            })
        }),
{
    assert(records.push(record).drop_last() =~= records);
}

/// The duration of a record is a sample of its operation alone.
pub proof fn durations_are_sampled(records: Seq<QueryRecord>, record: QueryRecord, op: Op)
    ensures
        record.op != op ==> crate::telemetry::durations(records.push(record), op)
            == crate::telemetry::durations(records, op),
        record.op == op && record.micros <= u32::MAX ==> crate::telemetry::durations(
            records.push(record),
            op,
        ) == crate::telemetry::durations(records, op).push(record.micros as u32),
        record.op == op && record.micros > u32::MAX ==> crate::telemetry::durations(
            records.push(record),
            op,
        ) == crate::telemetry::durations(records, op).push(u32::MAX),
{
    assert(records.push(record).drop_last() =~= records);
}

/// The bytes of a part of a text are a span in it. A span that ends before it
/// starts is inverted, and one that ends behind the text is out of bounds.
pub proof fn spans_lie_in_their_text(a: Seq<char>, b: Seq<char>, c: Seq<char>, start: int, end: int)
    ensures
        crate::telemetry::span_fault(
            a + b + c,
            vstd::utf8::encode_utf8(a).len() as int,
            vstd::utf8::encode_utf8(a + b).len() as int,
        ) is None,
        start > end ==> crate::telemetry::span_fault(a, start, end) == Some(
            Invariant::RangeInverted,
        ),
        start <= end && end > vstd::utf8::encode_utf8(a).len() ==> crate::telemetry::span_fault(
            a,
            start,
            end,
        ) == Some(Invariant::OffsetOutOfBounds),
{
    let text = a + b + c;
    let utf8 = crate::line_index::PositionEncoding::Utf8;
    let end_at = a.len() + b.len() as int;
    assert(text.take(a.len() as int) =~= a);
    assert(text.take(end_at) =~= a + b);
    assert(text.take(text.len() as int) =~= text);
    assert(a.take(a.len() as int) =~= a);
    crate::line_index::lemma_units_are_bytes(a);
    crate::line_index::lemma_units_are_bytes(a + b);
    crate::line_index::lemma_units_are_bytes(text);
    crate::line_index::lemma_units_grow(text, a.len() as int, end_at, utf8);
    crate::line_index::lemma_units_grow(text, end_at, text.len() as int, utf8);
    assert(crate::line_index::offset_of(text, a.len() as int) == vstd::utf8::encode_utf8(a).len());
    assert(crate::line_index::offset_of(text, end_at) == vstd::utf8::encode_utf8(a + b).len());
}

/// An offset inside a character is on no boundary.
pub proof fn spans_do_not_cut_characters(a: Seq<char>, c: char, b: Seq<char>, inside: int)
    requires
        vstd::utf8::encode_utf8(a).len() < inside < vstd::utf8::encode_utf8(a.push(c)).len(),
    ensures
        crate::telemetry::span_fault(a.push(c) + b, inside, inside) == Some(
            Invariant::OffsetNotOnCharBoundary,
        ),
{
    let text = a.push(c) + b;
    let n = a.len() as int;
    let utf8 = crate::line_index::PositionEncoding::Utf8;
    assert(text.take(n) =~= a);
    assert(text.take(n + 1) =~= a.push(c));
    assert(text.take(text.len() as int) =~= text);
    crate::line_index::lemma_units_are_bytes(a);
    crate::line_index::lemma_units_are_bytes(a.push(c));
    crate::line_index::lemma_units_are_bytes(text);
    crate::line_index::lemma_units_grow(text, n + 1, text.len() as int, utf8);
    if crate::telemetry::on_boundary(text, inside) {
        let k = choose|k: int|
            0 <= k <= text.len() && #[trigger] crate::line_index::offset_of(text, k) == inside;
        if k <= n {
            crate::line_index::lemma_units_grow(text, k, n, utf8);
        } else {
            crate::line_index::lemma_units_grow(text, n + 1, k, utf8);
        }
    }
}

/// What is raised about an operation: any misleading answer to a client, and
/// more than one in a thousand of an internal step; any stale read; more than one
/// failure in twenty runs; and more than one truncated answer in four.
pub proof fn concerns_are_raised_by_their_thresholds(health: OpHealth)
    ensures
        ({
            let concerns = crate::telemetry::health::op_concerns(health);
            &&& concerns.contains(
                Concern::MisleadingEmpties {
                    op: health.op,
                    count: health.misleading_empty,
                    total: health.total,
                },
            ) <==> if crate::telemetry::client_facing(health.op) {
                health.misleading_empty > 0
            } else {
                health.total > 0 && health.misleading_empty * 1000 > health.total
            }
            &&& concerns.contains(Concern::StaleReads { op: health.op, count: health.stale_reads })
                <==> health.stale_reads > 0
            &&& concerns.contains(
                Concern::Failing { op: health.op, failed: health.failed, total: health.total },
            ) <==> health.total > 0 && health.failed * 20 > health.total
            &&& concerns.contains(
                Concern::HeavyTruncation {
                    op: health.op,
                    truncated: health.truncated,
                    answered: health.answered,
                    withheld: health.results_withheld,
                },
            ) <==> health.answered > 0 && health.truncated * 4 > health.answered
            &&& concerns.len() <= 4
        }),
{
    let concerns = crate::telemetry::health::op_concerns(health);
    let misleading = if crate::telemetry::client_facing(health.op) {
        health.misleading_empty > 0
    } else {
        health.total > 0 && health.misleading_empty * 1000 > health.total
    };
    let a = if misleading {
        1int
    } else {
        0int
    };
    let b = a + if health.stale_reads > 0 {
        1int
    } else {
        0int
    };
    let failing = health.total > 0 && health.failed * 20 > health.total;
    let c = b + if failing {
        1int
    } else {
        0int
    };
    if misleading {
        assert(concerns[0] is MisleadingEmpties);
    }
    if health.stale_reads > 0 {
        assert(concerns[a] is StaleReads);
    }
    if failing {
        assert(concerns[b] is Failing);
    }
    if health.answered > 0 && health.truncated * 4 > health.answered {
        assert(concerns[c] is HeavyTruncation);
    }
}

/// Wrong answers are worse than partial ones, and those than failures.
pub proof fn wrong_answers_are_the_worst(
    misleading: Concern,
    broken: Concern,
    stale: Concern,
    truncated: Concern,
    failing: Concern,
)
    requires
        misleading is MisleadingEmpties,
        broken is BrokenInvariant,
        stale is StaleReads,
        truncated is HeavyTruncation,
        failing is Failing,
    ensures
        crate::telemetry::health::severity_of(misleading)
            < crate::telemetry::health::severity_of(broken),
        crate::telemetry::health::severity_of(broken) < crate::telemetry::health::severity_of(stale),
        crate::telemetry::health::severity_of(stale)
            < crate::telemetry::health::severity_of(truncated),
        crate::telemetry::health::severity_of(truncated)
            < crate::telemetry::health::severity_of(failing),
{
}

/// A window keeps the latest samples: all of them while they are few, and never
/// an older one in place of a later one.
pub proof fn windows_keep_the_latest(samples: Seq<u32>, sample: u32)
    ensures
        crate::telemetry::window::recent(samples.push(sample)).last() == sample,
        crate::telemetry::window::recent(samples).is_suffix_of(samples),
        samples.len() <= crate::telemetry::window::SAMPLE_WINDOW
            ==> crate::telemetry::window::recent(samples) == samples,
        samples.len() > crate::telemetry::window::SAMPLE_WINDOW
            ==> crate::telemetry::window::recent(samples).len()
            == crate::telemetry::window::SAMPLE_WINDOW,
{
}

/// A percentile is the least of the samples, in order, at which that part of
/// them is reached.
pub proof fn percentiles_reach_their_part(n: int, percent: int)
    requires
        0 < n,
        0 < percent <= 100,
    ensures
        ({
            let rank = crate::telemetry::window::rank_of(n, percent);
            &&& 0 <= rank < n
            &&& 100 * (rank + 1) >= percent * n
            &&& 100 * rank < percent * n
        }),
{
    let part = percent * n;
    assert(part > 0 && part <= 100 * n) by (nonlinear_arith)
        requires
            part == percent * n,
            0 < percent <= 100,
            0 < n,
    ;
}

/// No two operations have the same name.
pub proof fn operations_are_told_apart_by_name(
    a: Op,
    b: Op,
    called_a: &'static str,
    called_b: &'static str,
)
    requires
        call_ensures(Op::name, (a,), called_a),
        call_ensures(Op::name, (b,), called_b),
        called_a@ == called_b@,
    ensures
        a == b,
{
    reveal_strlit("workspaceSymbol");
    reveal_strlit("goToDefinition");
    reveal_strlit("findReferences");
    reveal_strlit("hover");
    reveal_strlit("documentSymbol");
    reveal_strlit("goToImplementation");
    reveal_strlit("prepareCallHierarchy");
    reveal_strlit("incomingCalls");
    reveal_strlit("outgoingCalls");
    reveal_strlit("bsp/inverseSources");
    reveal_strlit("bsp/targetQuery");
    reveal_strlit("index/build");
    reveal_strlit("slice/load");
    assert("workspaceSymbol"@.len() == 15 && "workspaceSymbol"@[0] == 'w');
    assert("goToDefinition"@.len() == 14 && "goToDefinition"@[0] == 'g');
    assert("findReferences"@.len() == 14 && "findReferences"@[0] == 'f');
    assert("hover"@.len() == 5);
    assert("documentSymbol"@.len() == 14 && "documentSymbol"@[0] == 'd');
    assert("goToImplementation"@.len() == 18 && "goToImplementation"@[0] == 'g');
    assert("prepareCallHierarchy"@.len() == 20);
    assert("incomingCalls"@.len() == 13 && "incomingCalls"@[0] == 'i');
    assert("outgoingCalls"@.len() == 13 && "outgoingCalls"@[0] == 'o');
    assert("bsp/inverseSources"@.len() == 18 && "bsp/inverseSources"@[0] == 'b');
    assert("bsp/targetQuery"@.len() == 15 && "bsp/targetQuery"@[0] == 'b');
    assert("index/build"@.len() == 11);
    assert("slice/load"@.len() == 10);
}

} // verus!
