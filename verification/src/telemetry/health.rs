//! Summaries of how the server is behaving, and what looks wrong in them.
use vstd::prelude::*;

use crate::telemetry::{
    Counter, EmptyReason, Invariant, Op, QueryRecord, Telemetry, TelemetryView, INVARIANT_COUNT,
    OP_COUNT,
};

verus! {

/// Per-operation counters and latencies. No user data.
#[derive(Copy, Clone, Debug)]
pub struct OpHealth {
    pub op: Op,
    pub total: u64,
    pub answered: u64,
    /// Empty answers that were truthful.
    pub empty_no_match: u64,
    /// Empty answers the client will read as "does not exist".
    pub misleading_empty: u64,
    pub truncated: u64,
    /// Total results trimmed away across all truncated responses.
    pub results_withheld: u64,
    pub failed: u64,
    pub cancelled: u64,
    pub stale_reads: u64,
    pub p50_micros: u32,
    pub p95_micros: u32,
    pub p99_micros: u32,
}

/// How often an invariant was broken.
#[derive(Copy, Clone, Debug)]
pub struct ViolationCount {
    pub rule: Invariant,
    pub count: usize,
}

/// A detected problem, rather than a number to interpret. Rates are given as
/// the two numbers that they are the quotient of.
#[derive(Copy, Clone, Debug, PartialEq, Eq, Structural)]
#[allow(inconsistent_fields)]
pub enum Concern {
    /// The server is telling clients that things do not exist when it simply
    /// has not looked. The most damaging failure mode available to it.
    MisleadingEmpties { op: Op, count: u64, total: u64 },
    /// Answers were computed from state the client had already moved past.
    StaleReads { op: Op, count: u64 },
    /// A range or reference did not survive validation.
    BrokenInvariant { rule: Invariant, count: usize },
    /// Results are being withheld often enough that clients are probably acting
    /// on partial data.
    HeavyTruncation { op: Op, truncated: u64, answered: u64, withheld: u64 },
    /// The operation is failing outright.
    Failing { op: Op, failed: u64, total: u64 },
}

/// How badly a client is misled by a problem; what is lower is worse.
pub open spec fn severity_of(concern: Concern) -> u8 {
    match concern {
        Concern::MisleadingEmpties { .. } => 0,
        Concern::BrokenInvariant { .. } => 1,
        Concern::StaleReads { .. } => 2,
        Concern::HeavyTruncation { .. } => 3,
        Concern::Failing { .. } => 4,
    }
}

impl Concern {
    /// Lower sorts first. Ranked by how badly the client is misled, not by how
    /// loud the symptom is: a wrong answer outranks an outright failure,
    /// because a failure is at least visible to the client.
    pub fn severity(&self) -> (severity: u8)
        ensures
            severity == severity_of(*self),
    {
        match self {
            Concern::MisleadingEmpties { .. } => 0,
            Concern::BrokenInvariant { .. } => 1,
            Concern::StaleReads { .. } => 2,
            Concern::HeavyTruncation { .. } => 3,
            Concern::Failing { .. } => 4,
        }
    }
}

/// One misleading empty answer in this many stops being noise on an internal
/// step. Deliberately low: it is still an agent being told something untrue.
pub const MISLEADING_EMPTY_RATIO: u64 = 1000;

/// One failure in this many stops being noise.
pub const FAILURE_RATIO: u64 = 20;

/// One truncated answer in this many stops being noise.
pub const TRUNCATION_RATIO: u64 = 4;

/// Whether `part` is more than one in `ratio` of `whole`.
pub open spec fn exceeds(part: u64, whole: u64, ratio: u64) -> bool {
    whole > 0 && part * ratio > whole
}

/// Decides [`exceeds`].
fn is_frequent(part: u64, whole: u64, ratio: u64) -> (yes: bool)
    ensures
        yes == exceeds(part, whole, ratio),
{
    assert(0 <= part * ratio <= 0xffff_ffff_ffff_ffff * 0xffff_ffff_ffff_ffff) by (nonlinear_arith)
        requires
            0 <= part <= 0xffff_ffff_ffff_ffff,
            0 <= ratio <= 0xffff_ffff_ffff_ffff,
    ;
    whole > 0 && part as u128 * ratio as u128 > whole as u128
}

/// What looks wrong about one operation.
///
/// Any misleading empty on a client-facing operation is worth surfacing;
/// internal steps get a threshold, since a not-yet-built index legitimately
/// reports that it is not ready during startup.
pub open spec fn op_concerns(health: OpHealth) -> Seq<Concern> {
    let misleading = if crate::telemetry::client_facing(health.op) {
        health.misleading_empty > 0
    } else {
        exceeds(health.misleading_empty, health.total, MISLEADING_EMPTY_RATIO)
    };
    (if misleading {
        seq![
            Concern::MisleadingEmpties {
                op: health.op,
                count: health.misleading_empty,
                total: health.total,
            },
        ]
    } else {
        Seq::empty()
    }) + (if health.stale_reads > 0 {
        seq![Concern::StaleReads { op: health.op, count: health.stale_reads }]
    } else {
        Seq::empty()
    }) + (if exceeds(health.failed, health.total, FAILURE_RATIO) {
        seq![Concern::Failing { op: health.op, failed: health.failed, total: health.total }]
    } else {
        Seq::empty()
    }) + (if exceeds(health.truncated, health.answered, TRUNCATION_RATIO) {
        seq![
            Concern::HeavyTruncation {
                op: health.op,
                truncated: health.truncated,
                answered: health.answered,
                withheld: health.results_withheld,
            },
        ]
    } else {
        Seq::empty()
    })
}

/// What looks wrong about some operations, one after the other.
pub open spec fn all_op_concerns(ops: Seq<OpHealth>) -> Seq<Concern>
    decreases ops.len(),
{
    if ops.len() == 0 {
        Seq::empty()
    } else {
        all_op_concerns(ops.drop_last()) + op_concerns(ops.last())
    }
}

/// What looks wrong about the invariants: every one that was broken.
pub open spec fn violation_concerns(violations: Seq<ViolationCount>) -> Seq<Concern> {
    violations.map_values(
        |v: ViolationCount| Concern::BrokenInvariant { rule: v.rule, count: v.count },
    )
}

/// The concerns of one severity, as they came.
pub open spec fn of_severity(concerns: Seq<Concern>, severity: int) -> Seq<Concern>
    decreases concerns.len(),
{
    if concerns.len() == 0 {
        Seq::empty()
    } else if severity_of(concerns.last()) == severity {
        of_severity(concerns.drop_last(), severity).push(concerns.last())
    } else {
        of_severity(concerns.drop_last(), severity)
    }
}

/// The concerns up to a severity, worst first, those of one severity as they
/// came.
pub open spec fn worst_first(concerns: Seq<Concern>, up_to: nat) -> Seq<Concern>
    decreases up_to,
{
    if up_to == 0 {
        Seq::empty()
    } else {
        worst_first(concerns, (up_to - 1) as nat) + of_severity(concerns, up_to - 1)
    }
}

/// How many severities there are.
pub const SEVERITIES: usize = 5;

/// What looks wrong, worst first.
pub open spec fn detected(ops: Seq<OpHealth>, violations: Seq<ViolationCount>) -> Seq<Concern> {
    worst_first(all_op_concerns(ops) + violation_concerns(violations), SEVERITIES as nat)
}

/// Finds what looks wrong.
pub fn detect_concerns(ops: &Vec<OpHealth>, violations: &Vec<ViolationCount>) -> (concerns: Vec<
    Concern,
>)
    ensures
        concerns@ == detected(ops@, violations@),
{
    let mut found: Vec<Concern> = Vec::new();
    let mut i: usize = 0;
    assert(ops@.take(0) =~= Seq::<OpHealth>::empty());
    while i < ops.len()
        invariant
            i <= ops@.len(),
            found@ == all_op_concerns(ops@.take(i as int)),
        decreases ops@.len() - i,
    {
        let op = ops[i];
        let ghost before = found@;
        let misleading = if op.op.is_client_facing() {
            op.misleading_empty > 0
        } else {
            is_frequent(op.misleading_empty, op.total, MISLEADING_EMPTY_RATIO)
        };
        if misleading {
            found.push(
                Concern::MisleadingEmpties {
                    op: op.op,
                    count: op.misleading_empty,
                    total: op.total,
                },
            );
        }
        if op.stale_reads > 0 {
            found.push(Concern::StaleReads { op: op.op, count: op.stale_reads });
        }
        if is_frequent(op.failed, op.total, FAILURE_RATIO) {
            found.push(Concern::Failing { op: op.op, failed: op.failed, total: op.total });
        }
        if is_frequent(op.truncated, op.answered, TRUNCATION_RATIO) {
            found.push(
                Concern::HeavyTruncation {
                    op: op.op,
                    truncated: op.truncated,
                    answered: op.answered,
                    withheld: op.results_withheld,
                },
            );
        }
        proof {
            assert(found@ =~= before + op_concerns(op));
            assert(ops@.take(i + 1).drop_last() =~= ops@.take(i as int));
        }
        i += 1;
    }
    assert(ops@.take(i as int) =~= ops@);
    let ghost raised = found@;
    let mut i: usize = 0;
    while i < violations.len()
        invariant
            i <= violations@.len(),
            raised == all_op_concerns(ops@),
            found@ == raised + violation_concerns(violations@).take(i as int),
        decreases violations@.len() - i,
    {
        let v = violations[i];
        found.push(Concern::BrokenInvariant { rule: v.rule, count: v.count });
        proof {
            assert(found@ =~= raised + violation_concerns(violations@).take(i + 1));
        }
        i += 1;
    }
    assert(found@ =~= raised + violation_concerns(violations@));
    sort_concerns(&found)
}

/// The concerns, worst first.
fn sort_concerns(found: &Vec<Concern>) -> (sorted: Vec<Concern>)
    ensures
        sorted@ == worst_first(found@, SEVERITIES as nat),
{
    let mut sorted: Vec<Concern> = Vec::new();
    let mut severity: usize = 0;
    while severity < SEVERITIES
        invariant
            severity <= SEVERITIES,
            sorted@ == worst_first(found@, severity as nat),
        decreases SEVERITIES - severity,
    {
        let ghost before = sorted@;
        let mut i: usize = 0;
        assert(found@.take(0) =~= Seq::<Concern>::empty());
        assert(sorted@ =~= before + of_severity(found@.take(0), severity as int));
        while i < found.len()
            invariant
                i <= found@.len(),
                sorted@ == before + of_severity(found@.take(i as int), severity as int),
            decreases found@.len() - i,
        {
            let concern = found[i];
            proof {
                assert(found@.take(i + 1).drop_last() =~= found@.take(i as int));
            }
            if concern.severity() as usize == severity {
                sorted.push(concern);
            }
            assert(sorted@ =~= before + of_severity(found@.take(i + 1), severity as int));
            i += 1;
        }
        assert(found@.take(i as int) =~= found@);
        severity += 1;
    }
    sorted
}

/// No later concern is worse than an earlier one.
pub proof fn worst_come_first(concerns: Seq<Concern>, up_to: nat, i: int, j: int)
    requires
        0 <= i < j < worst_first(concerns, up_to).len(),
    ensures
        severity_of(worst_first(concerns, up_to)[i]) <= severity_of(
            worst_first(concerns, up_to)[j],
        ),
    decreases up_to,
{
    if up_to > 0 {
        let less = worst_first(concerns, (up_to - 1) as nat);
        let same = of_severity(concerns, up_to - 1);
        lemma_same_severity(concerns, up_to - 1);
        if j < less.len() {
            worst_come_first(concerns, (up_to - 1) as nat, i, j);
        } else {
            assert(worst_first(concerns, up_to)[j] == same[j - less.len()]);
            if i < less.len() {
                lemma_below(concerns, (up_to - 1) as nat, i);
            } else {
                assert(worst_first(concerns, up_to)[i] == same[i - less.len()]);
            }
        }
    }
}

/// The concerns of one severity have it.
proof fn lemma_same_severity(concerns: Seq<Concern>, severity: int)
    ensures
        forall|k: int|
            0 <= k < of_severity(concerns, severity).len() ==> severity_of(
                #[trigger] of_severity(concerns, severity)[k],
            ) == severity,
    decreases concerns.len(),
{
    if concerns.len() > 0 {
        let rest = of_severity(concerns.drop_last(), severity);
        lemma_same_severity(concerns.drop_last(), severity);
        assert forall|k: int| 0 <= k < of_severity(concerns, severity).len() implies severity_of(
            #[trigger] of_severity(concerns, severity)[k],
        ) == severity by {
            if k < rest.len() {
                assert(of_severity(concerns, severity)[k] == rest[k]);
            }
        }
    }
}

/// The concerns up to a severity are below it.
proof fn lemma_below(concerns: Seq<Concern>, up_to: nat, i: int)
    requires
        0 <= i < worst_first(concerns, up_to).len(),
    ensures
        severity_of(worst_first(concerns, up_to)[i]) < up_to,
    decreases up_to,
{
    if up_to > 0 {
        let less = worst_first(concerns, (up_to - 1) as nat);
        lemma_same_severity(concerns, up_to - 1);
        if i < less.len() {
            lemma_below(concerns, (up_to - 1) as nat, i);
        } else {
            assert(worst_first(concerns, up_to)[i] == of_severity(concerns, up_to - 1)[i
                - less.len()]);
        }
    }
}

/// The summary of an operation, after `records`.
pub open spec fn op_health(records: Seq<QueryRecord>, op: Op) -> OpHealth {
    let window = crate::telemetry::window::recent(crate::telemetry::durations(records, op));
    OpHealth {
        op,
        total: crate::telemetry::tally(records, op, Counter::Total) as u64,
        answered: crate::telemetry::tally(records, op, Counter::Answered) as u64,
        empty_no_match: crate::telemetry::tally(
            records,
            op,
            Counter::Empty(EmptyReason::NoMatch),
        ) as u64,
        misleading_empty: crate::telemetry::misled(records, op) as u64,
        truncated: crate::telemetry::tally(records, op, Counter::Truncated) as u64,
        results_withheld: crate::telemetry::tally(records, op, Counter::Withheld) as u64,
        failed: crate::telemetry::failures(records, op) as u64,
        cancelled: crate::telemetry::tally(records, op, Counter::Cancelled) as u64,
        stale_reads: crate::telemetry::tally(records, op, Counter::Stale) as u64,
        p50_micros: crate::telemetry::window::percentile(window, 50),
        p95_micros: crate::telemetry::window::percentile(window, 95),
        p99_micros: crate::telemetry::window::percentile(window, 99),
    }
}

/// The summaries of the first `n` operations, of those that were recorded.
pub open spec fn op_rows(records: Seq<QueryRecord>, n: nat) -> Seq<OpHealth>
    decreases n,
{
    if n == 0 {
        Seq::empty()
    } else {
        let op = crate::telemetry::op_at(n - 1);
        let rest = op_rows(records, (n - 1) as nat);
        if crate::telemetry::tally(records, op, Counter::Total) > 0 {
            rest.push(op_health(records, op))
        } else {
            rest
        }
    }
}

/// The counts of the first `n` invariants, of those that were broken.
pub open spec fn violation_rows(violations: Seq<Invariant>, n: nat) -> Seq<ViolationCount>
    decreases n,
{
    if n == 0 {
        Seq::empty()
    } else {
        let rule = crate::telemetry::invariant_at(n - 1);
        let count = crate::telemetry::broken_count(violations, rule);
        let rest = violation_rows(violations, (n - 1) as nat);
        if count > 0 {
            rest.push(ViolationCount { rule, count: count as usize })
        } else {
            rest
        }
    }
}

/// A path-free, shareable summary of how the server is behaving.
#[derive(Debug)]
pub struct Health {
    pub uptime_millis: u64,
    pub ops: Vec<OpHealth>,
    pub violations: Vec<ViolationCount>,
    /// Detected problems, worst first. Empty means nothing tripped a threshold.
    pub concerns: Vec<Concern>,
}

/// Whether `health` is the summary of what was recorded.
pub open spec fn summarizes(health: Health, seen: TelemetryView) -> bool {
    &&& health.ops@ == op_rows(seen.records, OP_COUNT as nat)
    &&& health.violations@ == violation_rows(seen.violations, INVARIANT_COUNT as nat)
    &&& health.concerns@ == detected(health.ops@, health.violations@)
}

impl Health {
    /// Whether nothing looks wrong.
    pub fn is_healthy(&self) -> (healthy: bool)
        ensures
            healthy == (self.concerns@.len() == 0),
    {
        self.concerns.len() == 0
    }
}

impl Telemetry {
    /// A point-in-time summary, after the server has run for `uptime_millis`.
    /// Contains no paths, symbol names or file contents, and is safe to hand to
    /// someone outside this machine.
    pub fn health(&self, uptime_millis: u64) -> (health: Health)
        requires
            self.wf(),
        ensures
            health.uptime_millis == uptime_millis,
            summarizes(health, self@),
    {
        let mut ops: Vec<OpHealth> = Vec::new();
        let mut n: usize = 0;
        while n < OP_COUNT
            invariant
                self.wf(),
                n <= OP_COUNT,
                ops@ == op_rows(self@.records, n as nat),
            decreases OP_COUNT - n,
        {
            if let Some(health) = self.op_health(Op::at(n)) {
                ops.push(health);
            }
            n += 1;
        }
        let mut violations: Vec<ViolationCount> = Vec::new();
        let mut n: usize = 0;
        while n < INVARIANT_COUNT
            invariant
                self.wf(),
                n <= INVARIANT_COUNT,
                violations@ == violation_rows(self@.violations, n as nat),
            decreases INVARIANT_COUNT - n,
        {
            let rule = Invariant::at(n);
            let count: usize = self.violation_count(rule);
            if count > 0 {
                violations.push(ViolationCount { rule, count });
            }
            n += 1;
        }
        let concerns = detect_concerns(&ops, &violations);
        Health { uptime_millis, ops, violations, concerns }
    }
}

/// Whether the numbers of a row are those of the records of its operation, and
/// fit together.
pub open spec fn adds_up(row: OpHealth, records: Seq<QueryRecord>) -> bool {
    &&& row.total == crate::telemetry::tally(records, row.op, Counter::Total)
    &&& row.total > 0
    &&& row.total == row.answered + row.empty_no_match + row.misleading_empty + row.failed
        + row.cancelled
    &&& row.truncated <= row.answered
    &&& row.truncated == crate::telemetry::tally(records, row.op, Counter::Truncated)
    &&& row.results_withheld == crate::telemetry::tally(records, row.op, Counter::Withheld)
    &&& row.stale_reads <= row.total
    &&& row.p50_micros <= row.p95_micros <= row.p99_micros
}

/// Whether rows stand in the order of their operations, one for each at most.
pub open spec fn ops_ascend(rows: Seq<OpHealth>) -> bool {
    forall|i: int, j: int|
        0 <= i < j < rows.len() ==> crate::telemetry::op_number((#[trigger] rows[i]).op)
            < crate::telemetry::op_number((#[trigger] rows[j]).op)
}

/// Whether one of the rows is about an operation.
pub open spec fn has_row(rows: Seq<OpHealth>, op: Op) -> bool {
    exists|i: int| 0 <= i < rows.len() && (#[trigger] rows[i]).op == op
}

/// Whether counts are those of the violations, and stand in the order of the
/// invariants, one for each at most.
pub open spec fn violations_add_up(
    rows: Seq<ViolationCount>,
    violations: Seq<Invariant>,
) -> bool {
    &&& forall|i: int|
        0 <= i < rows.len() ==> 0 < (#[trigger] rows[i]).count
            == crate::telemetry::broken_count(violations, rows[i].rule)
    &&& forall|i: int, j: int|
        0 <= i < j < rows.len() ==> crate::telemetry::invariant_number((#[trigger] rows[i]).rule)
            < crate::telemetry::invariant_number((#[trigger] rows[j]).rule)
}

/// Every recorded operation has one row, in the order of the operations, and the
/// numbers of each row add up. The same holds of the invariants that were broken.
pub proof fn rows_add_up(telemetry: &Telemetry, health: Health)
    requires
        telemetry.wf(),
        summarizes(health, telemetry@),
    ensures
        forall|i: int|
            0 <= i < health.ops@.len() ==> adds_up(
                #[trigger] health.ops@[i],
                telemetry@.records,
            ),
        ops_ascend(health.ops@),
        forall|op: Op|
            crate::telemetry::tally(telemetry@.records, op, Counter::Total) > 0
                ==> #[trigger] has_row(health.ops@, op),
        violations_add_up(health.violations@, telemetry@.violations),
{
    lemma_rows(telemetry, OP_COUNT as nat);
    lemma_violations(telemetry, INVARIANT_COUNT as nat);
    assert forall|op: Op|
        crate::telemetry::tally(
            telemetry@.records,
            op,
            Counter::Total,
        ) > 0 implies #[trigger] has_row(health.ops@, op) by {
        lemma_has_row(telemetry@.records, op);
    }
}

/// A recorded operation has a row.
proof fn lemma_has_row(records: Seq<QueryRecord>, op: Op)
    requires
        crate::telemetry::tally(records, op, Counter::Total) > 0,
    ensures
        has_row(op_rows(records, OP_COUNT as nat), op),
{
    let n = crate::telemetry::op_number(op);
    assert(crate::telemetry::op_at(n) == op);
    lemma_row_is_listed(records, OP_COUNT as nat, n);
    let rows = op_rows(records, OP_COUNT as nat);
    let k = choose|k: int| 0 <= k < rows.len() && rows[k] == op_health(records, op);
    assert(rows[k].op == op);
}

/// The row of a recorded operation adds up.
proof fn lemma_row(telemetry: &Telemetry, op: Op)
    requires
        telemetry.wf(),
        crate::telemetry::tally(telemetry@.records, op, Counter::Total) > 0,
    ensures
        adds_up(op_health(telemetry@.records, op), telemetry@.records),
{
    let records = telemetry@.records;
    telemetry.lemma_counts_fit(op, Invariant::OffsetOutOfBounds);
    crate::telemetry::outcomes_add_up(records, op);
    crate::telemetry::lemma_tally_bound(records, op, Counter::Stale);
    let window = crate::telemetry::window::recent(crate::telemetry::durations(records, op));
    crate::telemetry::window::percentiles_ascend(window, 50, 95);
    crate::telemetry::window::percentiles_ascend(window, 95, 99);
}

/// The rows of the first operations add up and stand in order.
proof fn lemma_rows(telemetry: &Telemetry, n: nat)
    requires
        telemetry.wf(),
        n <= OP_COUNT,
    ensures
        forall|i: int|
            0 <= i < op_rows(telemetry@.records, n).len() ==> adds_up(
                #[trigger] op_rows(telemetry@.records, n)[i],
                telemetry@.records,
            ) && crate::telemetry::op_number(op_rows(telemetry@.records, n)[i].op) < n,
        ops_ascend(op_rows(telemetry@.records, n)),
    decreases n,
{
    if n > 0 {
        let records = telemetry@.records;
        let op = crate::telemetry::op_at(n - 1);
        assert(crate::telemetry::op_number(op) == n - 1);
        lemma_rows(telemetry, (n - 1) as nat);
        if crate::telemetry::tally(records, op, Counter::Total) > 0 {
            lemma_row(telemetry, op);
        }
    }
}

/// The counts of the first invariants are right and stand in order.
proof fn lemma_violations(telemetry: &Telemetry, n: nat)
    requires
        telemetry.wf(),
        n <= INVARIANT_COUNT,
    ensures
        violations_add_up(violation_rows(telemetry@.violations, n), telemetry@.violations),
        forall|i: int|
            0 <= i < violation_rows(telemetry@.violations, n).len()
                ==> crate::telemetry::invariant_number(
                (#[trigger] violation_rows(telemetry@.violations, n)[i]).rule,
            ) < n,
    decreases n,
{
    if n > 0 {
        let rule = crate::telemetry::invariant_at(n - 1);
        assert(crate::telemetry::invariant_number(rule) == n - 1);
        telemetry.lemma_counts_fit(Op::WorkspaceSymbol, rule);
        lemma_violations(telemetry, (n - 1) as nat);
    }
}

/// A misleading empty answer to a client is always reported: whatever else was
/// recorded, the summary raises a concern of the worst severity about the
/// operation.
pub proof fn misleading_answers_are_reported(telemetry: &Telemetry, at: int, health: Health)
    requires
        telemetry.wf(),
        0 <= at < telemetry@.records.len(),
        crate::telemetry::misleading(telemetry@.records[at].outcome),
        crate::telemetry::client_facing(telemetry@.records[at].op),
        summarizes(health, telemetry@),
    ensures
        health.concerns@.len() > 0,
        severity_of(health.concerns@[0]) == 0,
        exists|i: int|
            0 <= i < health.concerns@.len() && (#[trigger] health.concerns@[i] matches
                Concern::MisleadingEmpties { op, .. } && op == telemetry@.records[at].op),
{
    let records = telemetry@.records;
    let op = records[at].op;
    telemetry.lemma_counts_fit(op, Invariant::OffsetOutOfBounds);
    lemma_misled_counts(records, at);
    crate::telemetry::outcomes_add_up(records, op);
    let row = op_health(records, op);
    let n = crate::telemetry::op_number(op);
    assert(crate::telemetry::op_at(n) == op);
    lemma_row_is_listed(records, OP_COUNT as nat, n);
    let k = choose|k: int| 0 <= k < health.ops@.len() && health.ops@[k] == row;
    let concern = Concern::MisleadingEmpties {
        op,
        count: row.misleading_empty,
        total: row.total,
    };
    assert(op_concerns(row)[0] == concern);
    lemma_raised(health.ops@, k, concern);
    let all = all_op_concerns(health.ops@) + violation_concerns(health.violations@);
    let i = choose|i: int|
        0 <= i < all_op_concerns(health.ops@).len() && all_op_concerns(health.ops@)[i] == concern;
    assert(all[i] == concern);
    lemma_kept(all, 0, i);
    let j = choose|j: int|
        0 <= j < of_severity(all, 0).len() && of_severity(all, 0)[j] == concern;
    lemma_worst_begin(all, SEVERITIES as nat);
    assert(health.concerns@[j] == concern);
    lemma_same_severity(all, 0);
    assert(severity_of(of_severity(all, 0)[0]) == 0);
}

/// A misleading record is counted.
proof fn lemma_misled_counts(records: Seq<QueryRecord>, at: int)
    requires
        0 <= at < records.len(),
        crate::telemetry::misleading(records[at].outcome),
    ensures
        crate::telemetry::misled(records, records[at].op) > 0,
    decreases records.len(),
{
    if at < records.len() - 1 {
        lemma_misled_counts(records.drop_last(), at);
    }
}

/// The summary of a recorded operation is among the rows.
proof fn lemma_row_is_listed(records: Seq<QueryRecord>, n: nat, at: int)
    requires
        0 <= at < n,
        crate::telemetry::tally(records, crate::telemetry::op_at(at), Counter::Total) > 0,
    ensures
        exists|k: int|
            0 <= k < op_rows(records, n).len() && op_rows(records, n)[k] == op_health(
                records,
                crate::telemetry::op_at(at),
            ),
    decreases n,
{
    let rows = op_rows(records, n);
    let rest = op_rows(records, (n - 1) as nat);
    if at == n - 1 {
        assert(rows[rest.len() as int] == op_health(records, crate::telemetry::op_at(at)));
    } else {
        lemma_row_is_listed(records, (n - 1) as nat, at);
        let k = choose|k: int|
            0 <= k < rest.len() && rest[k] == op_health(records, crate::telemetry::op_at(at));
        assert(rows[k] == rest[k]);
    }
}

/// What an operation's summary raises is among what all raise.
proof fn lemma_raised(ops: Seq<OpHealth>, k: int, concern: Concern)
    requires
        0 <= k < ops.len(),
        op_concerns(ops[k]).len() > 0,
        op_concerns(ops[k])[0] == concern,
    ensures
        exists|i: int| 0 <= i < all_op_concerns(ops).len() && all_op_concerns(ops)[i] == concern,
    decreases ops.len(),
{
    let rest = all_op_concerns(ops.drop_last());
    if k == ops.len() - 1 {
        assert(all_op_concerns(ops)[rest.len() as int] == concern);
    } else {
        lemma_raised(ops.drop_last(), k, concern);
        let i = choose|i: int| 0 <= i < rest.len() && rest[i] == concern;
        assert(all_op_concerns(ops)[i] == concern);
    }
}

/// A concern is among those of its severity.
proof fn lemma_kept(concerns: Seq<Concern>, severity: int, i: int)
    requires
        0 <= i < concerns.len(),
        severity_of(concerns[i]) == severity,
    ensures
        exists|j: int|
            0 <= j < of_severity(concerns, severity).len() && of_severity(concerns, severity)[j]
                == concerns[i],
    decreases concerns.len(),
{
    let rest = of_severity(concerns.drop_last(), severity);
    if i == concerns.len() - 1 {
        assert(of_severity(concerns, severity)[rest.len() as int] == concerns[i]);
    } else {
        lemma_kept(concerns.drop_last(), severity, i);
        let j = choose|j: int| 0 <= j < rest.len() && rest[j] == concerns[i];
        assert(of_severity(concerns, severity)[j] == concerns[i]);
    }
}

/// The worst concerns are the first.
proof fn lemma_worst_begin(concerns: Seq<Concern>, up_to: nat)
    requires
        up_to > 0,
    ensures
        of_severity(concerns, 0).is_prefix_of(worst_first(concerns, up_to)),
    decreases up_to,
{
    if up_to == 1 {
        assert(worst_first(concerns, 0) =~= Seq::<Concern>::empty());
        assert(worst_first(concerns, 1) =~= of_severity(concerns, 0));
    } else {
        lemma_worst_begin(concerns, (up_to - 1) as nat);
    }
}

} // verus!
