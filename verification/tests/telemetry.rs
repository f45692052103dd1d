//! Counting what the server does, and noticing when it misbehaves.
use jabar::telemetry::health::{detect_concerns, Concern, OpHealth};
use jabar::telemetry::window::{SampleWindow, SAMPLE_WINDOW};
use jabar::telemetry::{
    check_span, EmptyReason, Failure, InFlight, Invariant, Op, Outcome, QueryRecord, Telemetry,
};

fn ms(n: u64) -> u128 {
    u128::from(n) * 1000
}

#[test]
fn healthy_server_reports_no_concerns() {
    let mut t = Telemetry::new();
    for _ in 0..100 {
        t.record(QueryRecord::new(Op::GoToDefinition, Outcome::answered(1), ms(2)));
    }
    t.record(QueryRecord::new(
        Op::WorkspaceSymbol,
        Outcome::Empty { reason: EmptyReason::NoMatch },
        ms(1),
    ));

    let health = t.health(0);
    assert!(health.is_healthy(), "unexpected concerns: {:?}", health.concerns);
    assert_eq!(health.ops.len(), 2);
}

#[test]
fn a_single_misleading_empty_is_reported() {
    // The whole point. One "no results" that really meant "I had not
    // finished indexing" is enough to make an agent delete live code.
    let mut t = Telemetry::new();
    for _ in 0..999 {
        t.record(QueryRecord::new(Op::WorkspaceSymbol, Outcome::answered(3), ms(1)));
    }
    t.record(QueryRecord::new(
        Op::WorkspaceSymbol,
        Outcome::Empty { reason: EmptyReason::IndexNotReady },
        ms(1),
    ));

    let health = t.health(0);
    assert!(!health.is_healthy());
    let Concern::MisleadingEmpties { op, count, .. } = &health.concerns[0] else {
        panic!("expected misleading empties first, got {:?}", health.concerns);
    };
    assert_eq!((*op, *count), (Op::WorkspaceSymbol, 1));
}

#[test]
fn honest_empties_are_not_concerns() {
    let mut t = Telemetry::new();
    for _ in 0..50 {
        t.record(QueryRecord::new(
            Op::FindReferences,
            Outcome::Empty { reason: EmptyReason::NoMatch },
            ms(1),
        ));
    }
    let health = t.health(0);
    assert!(health.is_healthy(), "{:?}", health.concerns);
    assert_eq!(health.ops[0].empty_no_match, 50);
    assert_eq!(health.ops[0].misleading_empty, 0);
}

#[test]
fn concerns_rank_wrong_answers_above_failures() {
    // A failure is visible to the client and it can retry. A confident
    // wrong answer is not, so it has to sort first.
    let mut t = Telemetry::new();
    for _ in 0..10 {
        t.record(QueryRecord::new(
            Op::Hover,
            Outcome::Failed { failure: Failure::BuildServer },
            ms(1),
        ));
    }
    t.record(QueryRecord::new(
        Op::GoToDefinition,
        Outcome::Empty { reason: EmptyReason::TargetNotLoaded },
        ms(1),
    ));

    let concerns = t.health(0).concerns;
    assert!(matches!(concerns[0], Concern::MisleadingEmpties { .. }), "{concerns:?}");
    assert!(concerns.iter().any(|c| matches!(c, Concern::Failing { .. })));
}

#[test]
fn truncation_is_counted_and_surfaced() {
    let mut t = Telemetry::new();
    for _ in 0..10 {
        t.record(QueryRecord::new(
            Op::FindReferences,
            Outcome::Answered { returned: 20, total: 5000 },
            ms(5),
        ));
    }
    let health = t.health(0);
    assert_eq!(health.ops[0].truncated, 10);
    assert_eq!(health.ops[0].results_withheld, 49_800);
    assert!(matches!(
        health.concerns.iter().find(|c| matches!(c, Concern::HeavyTruncation { .. })),
        Some(Concern::HeavyTruncation { withheld: 49_800, .. })
    ));
}

#[test]
fn stale_reads_are_surfaced() {
    let mut t = Telemetry::new();
    t.record(
        QueryRecord::new(Op::FindReferences, Outcome::answered(2), ms(1))
            .at_revision(7)
            .stale(true),
    );
    let health = t.health(0);
    assert_eq!(health.ops[0].stale_reads, 1);
    assert!(health.concerns.iter().any(|c| matches!(c, Concern::StaleReads { count: 1, .. })));
}

#[test]
fn unfinished_operations_count_as_faults() {
    // A handler that unwinds must not vanish from the record.
    let mut t = Telemetry::new();
    let guard = t.start(Op::Hover);
    t.record(guard.conclude(ms(1)));
    let health = t.health(0);
    assert_eq!(health.ops[0].failed, 1, "dropping without an outcome should record a fault");
}

#[test]
fn in_flight_records_the_given_outcome() {
    let mut t = Telemetry::new();
    let mut guard = t.start(Op::DocumentSymbol);
    guard.at_revision(42);
    guard.finish(Outcome::answered(9));
    t.record(guard.conclude(ms(1)));
    let health = t.health(0);
    assert_eq!(health.ops[0].answered, 1);
    assert_eq!(health.ops[0].failed, 0);
}

#[test]
fn span_checks_catch_encoding_mistakes() {
    // Mirrors fixtures/megarepo Messages.java: the emoji is outside the BMP,
    // so a UTF-16 offset used as a byte offset lands mid-character.
    let text = "🔁 retrying…";
    assert_eq!(check_span(text, 0, 4), Ok(()), "4 bytes is the whole emoji");
    assert_eq!(check_span(text, 0, 2), Err(Invariant::OffsetNotOnCharBoundary));
    assert_eq!(check_span(text, 0, text.len() + 1), Err(Invariant::OffsetOutOfBounds));
    assert_eq!(check_span(text, 5, 4), Err(Invariant::RangeInverted));
    assert_eq!(check_span("", 0, 0), Ok(()), "an empty file has one valid empty span");
}

#[test]
fn checked_spans_are_recorded_and_do_not_panic() {
    let mut t = Telemetry::new();
    assert!(t.check_span("héllo", 0, 1));
    assert!(!t.check_span("héllo", 0, 2), "byte 2 splits the é");

    let health = t.health(0);
    assert_eq!(health.violations.len(), 1);
    assert_eq!(health.violations[0].rule, Invariant::OffsetNotOnCharBoundary);
    assert!(matches!(health.concerns[0], Concern::BrokenInvariant { count: 1, .. }));
}

#[test]
fn percentiles_are_ordered_and_survive_one_sample() {
    let mut t = Telemetry::new();
    t.record(QueryRecord::new(Op::Hover, Outcome::answered(1), ms(7)));
    let one = &t.health(0).ops[0];
    assert_eq!((one.p50_micros, one.p95_micros, one.p99_micros), (7_000, 7_000, 7_000));

    let mut t = Telemetry::new();
    for i in 1..=100u64 {
        t.record(QueryRecord::new(Op::Hover, Outcome::answered(1), ms(i)));
    }
    let many = &t.health(0).ops[0];
    assert!(many.p50_micros <= many.p95_micros && many.p95_micros <= many.p99_micros);
    assert_eq!(many.p50_micros, 50_000);
    assert_eq!(many.p99_micros, 99_000);
}

#[test]
fn sample_window_is_bounded() {
    let mut t = Telemetry::new();
    for _ in 0..(SAMPLE_WINDOW * 2 + 5) {
        t.record(QueryRecord::new(Op::Hover, Outcome::answered(1), ms(1)));
    }
    let health = t.health(0);
    assert_eq!(health.ops[0].total as usize, SAMPLE_WINDOW * 2 + 5, "counts stay exact");
    assert_eq!(t.sample_count(Op::Hover), SAMPLE_WINDOW, "samples stay bounded");
}

#[test]
fn summary_carries_no_user_data() {
    // Health is the shareable half. If a path or symbol name can reach it,
    // the boundary described in the module docs has been broken.
    let mut t = Telemetry::new();
    t.record(QueryRecord::new(Op::WorkspaceSymbol, Outcome::answered(3), ms(1)));
    t.check_span("class Grüße {}", 0, 8);

    let shown = format!("{:?}", t.health(0));
    assert!(!shown.contains("Grüße"), "file contents leaked into the summary: {shown}");
    assert!(!shown.contains('/'), "a path may have leaked into the summary: {shown}");
    assert_eq!(t.health(0).ops[0].op.name(), "workspaceSymbol");
}

#[test]
fn cancelled_work_is_not_a_fault() {
    let mut t = Telemetry::new();
    for _ in 0..20 {
        t.record(QueryRecord::new(Op::FindReferences, Outcome::Cancelled, ms(1)));
    }
    let health = t.health(0);
    assert_eq!(health.ops[0].cancelled, 20);
    assert!(health.is_healthy(), "{:?}", health.concerns);
}

#[test]
fn index_not_ready_is_tolerated_on_internal_steps() {
    // The index legitimately reports "not ready" while it builds. That must
    // not drown out the client-facing signal it would be on a real query.
    let mut t = Telemetry::new();
    t.record(QueryRecord::new(
        Op::IndexBuild,
        Outcome::Empty { reason: EmptyReason::IndexNotReady },
        ms(1),
    ));
    for _ in 0..2000 {
        t.record(QueryRecord::new(Op::IndexBuild, Outcome::answered(1), ms(1)));
    }
    assert!(t.health(0).is_healthy(), "{:?}", t.health(0).concerns);
}

#[test]
fn a_guard_can_report_a_stale_read() {
    // The gap this closes: the guard flow is how every handler reports, so
    // without mark_stale the stale-read signal could never fire in practice.
    let mut t = Telemetry::new();
    let mut guard = t.start(Op::WorkspaceSymbol);
    guard.at_revision(9);
    guard.mark_stale(true);
    guard.finish(Outcome::answered(1));
    t.record(guard.conclude(ms(1)));
    let health = t.health(0);
    assert_eq!(health.ops[0].stale_reads, 1);
    assert!(health.concerns.iter().any(|c| matches!(c, Concern::StaleReads { .. })));
}

#[test]
fn a_guard_can_report_a_failure_without_being_consumed() {
    let mut t = Telemetry::new();
    let mut guard = t.start(Op::IndexBuild);
    guard.mark_failed(Failure::Io);
    t.record(guard.conclude(ms(1)));
    assert_eq!(t.health(0).ops[0].failed, 1);
}

#[test]
fn a_stale_index_is_not_a_healthy_empty() {
    // An agent writes a file, then asks about it. "Not in the index" is not
    // "does not exist", and must not be counted as a truthful answer.
    assert!(!EmptyReason::IndexStale.is_healthy());
    let mut t = Telemetry::new();
    t.record(QueryRecord::new(
        Op::WorkspaceSymbol,
        Outcome::Empty { reason: EmptyReason::IndexStale },
        ms(1),
    ));
    assert_eq!(t.health(0).ops[0].misleading_empty, 1);
}

#[test]
fn outcomes_of_an_operation_add_up() {
    let mut t = Telemetry::new();
    let outcomes = [
        Outcome::answered(1),
        Outcome::Empty { reason: EmptyReason::NoMatch },
        Outcome::Empty { reason: EmptyReason::IndexNotReady },
        Outcome::Failed { failure: Failure::Io },
        Outcome::Cancelled,
    ];
    for outcome in outcomes {
        t.record(QueryRecord::new(Op::Hover, outcome, ms(1)));
    }
    let health = t.op_health(Op::Hover).unwrap();
    assert_eq!(health.total, 5);
    assert_eq!(
        health.answered
            + health.empty_no_match
            + health.misleading_empty
            + health.failed
            + health.cancelled,
        5
    );
    assert!(t.op_health(Op::GoToDefinition).is_none());
}

#[test]
fn percentiles_are_nearest_rank() {
    let mut window = SampleWindow::new();
    for sample in [40, 10, 30, 20] {
        window.push(sample);
    }
    assert_eq!(window.percentiles(), (20, 40, 40));
    assert_eq!(window.len(), 4);
}

#[test]
fn a_window_forgets_its_oldest_samples() {
    let mut window = SampleWindow::new();
    window.push(1_000_000);
    for _ in 0..SAMPLE_WINDOW {
        window.push(7);
    }
    assert_eq!(window.percentiles(), (7, 7, 7));
}

#[test]
fn an_unfinished_operation_is_a_panic() {
    let operation = InFlight::new(Op::Hover);
    let record = operation.conclude(3);
    assert_eq!(record.outcome, Outcome::Failed { failure: Failure::Panic });
    assert_eq!(record.micros, 3);
}

#[test]
fn the_thresholds_are_exact() {
    let quiet = OpHealth {
        op: Op::IndexBuild,
        total: 2000,
        answered: 1900,
        empty_no_match: 0,
        misleading_empty: 1,
        truncated: 0,
        results_withheld: 0,
        failed: 99,
        cancelled: 0,
        stale_reads: 0,
        p50_micros: 0,
        p95_micros: 0,
        p99_micros: 0,
    };
    assert!(detect_concerns(&vec![quiet], &vec![]).is_empty());
    let misleading = OpHealth { misleading_empty: 3, ..quiet };
    assert!(matches!(
        detect_concerns(&vec![misleading], &vec![])[..],
        [Concern::MisleadingEmpties { count: 3, total: 2000, .. }]
    ));
    let failing = OpHealth { failed: 101, ..quiet };
    assert!(matches!(
        detect_concerns(&vec![failing], &vec![])[..],
        [Concern::Failing { failed: 101, .. }]
    ));
}

#[test]
fn operations_are_numbered_and_named() {
    for n in 0..13 {
        assert_eq!(Op::at(n).number(), n);
    }
    assert!(Op::Hover.is_client_facing());
    assert!(!Op::IndexBuild.is_client_facing());
    assert_eq!(Invariant::at(Invariant::RangeInverted.number()), Invariant::RangeInverted);
}

#[test]
fn the_numbers_of_a_row_add_up() {
    let mut t = Telemetry::new();
    let op = Op::FindReferences;
    t.record(QueryRecord::new(Op::Hover, Outcome::Cancelled, ms(1)));
    t.record(QueryRecord::new(op, Outcome::answered(2), ms(9)));
    t.record(QueryRecord::new(op, Outcome::answered(3), ms(1)));
    t.record(QueryRecord::new(op, Outcome::Empty { reason: EmptyReason::NoMatch }, ms(5)));
    t.record(QueryRecord::new(op, Outcome::Empty { reason: EmptyReason::IndexNotReady }, ms(2)));
    t.record(QueryRecord::new(op, Outcome::Cancelled, ms(3)));
    let health = t.health(0);
    assert_eq!(health.ops.len(), 2, "a row for each kind of query");
    assert_eq!((health.ops[0].op, health.ops[1].op), (op, Op::Hover), "in order");
    let row = &health.ops[0];
    assert_eq!(row.total, 5);
    let kinds =
        [row.answered, row.empty_no_match, row.misleading_empty, row.failed, row.cancelled];
    assert_eq!(kinds, [2, 1, 1, 0, 1]);
    assert!(row.truncated <= row.answered && row.stale_reads <= row.total);
    assert!(row.p50_micros <= row.p95_micros && row.p95_micros <= row.p99_micros);
    assert_eq!(health.is_healthy(), health.concerns.is_empty());
}
