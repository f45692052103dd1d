//! Opt-in structured measurement events for the benchmark protocol.
//!
//! The field set is fixed and numeric. An event can carry a duration, an outcome
//! drawn from compile-time constants, counts, and byte sizes; it has no field
//! that can hold a source path or a symbol string, so that nothing of a
//! repository can leak into a log.
use vstd::prelude::*;

use crate::text::decimal_text;

verus! {

/// The complete, fixed vocabulary an event may carry.
#[derive(Copy, Clone, Debug)]
pub struct Fields {
    /// A compile-time outcome label, e.g. `"ok"`, `"miss"`, `"empty"`, `"error"`.
    pub outcome: Option<&'static str>,
    pub cache_hit: Option<bool>,
    pub generation: Option<u64>,
    pub shards: Option<usize>,
    pub definitions: Option<usize>,
    pub references: Option<usize>,
    pub reference_paths: Option<usize>,
    pub occurrences: Option<usize>,
    pub bytes: Option<u64>,
    /// Event-loop scheduling lateness for a heartbeat, in nanoseconds.
    pub lateness_ns: Option<u128>,
}

/// Fields that carry nothing.
pub open spec fn no_fields() -> Fields {
    Fields {
        outcome: None,
        cache_hit: None,
        generation: None,
        shards: None,
        definitions: None,
        references: None,
        reference_paths: None,
        occurrences: None,
        bytes: None,
        lateness_ns: None,
    }
}

impl Default for Fields {
    fn default() -> (fields: Fields)
        ensures
            fields == no_fields(),
    {
        Fields {
            outcome: None,
            cache_hit: None,
            generation: None,
            shards: None,
            definitions: None,
            references: None,
            reference_paths: None,
            occurrences: None,
            bytes: None,
            lateness_ns: None,
        }
    }
}

/// One measurement.
#[derive(Debug)]
pub struct Event {
    pub name: &'static str,
    pub run_id: String,
    pub seq: u64,
    /// Nanoseconds since process start.
    pub t_ns: u128,
    /// Duration of the measured span, or 0 for a point event.
    pub dur_ns: u128,
    pub fields: Fields,
}

/// The view of an [`Event`].
pub struct EventView {
    pub name: Seq<char>,
    pub run_id: Seq<char>,
    pub seq: u64,
    pub t_ns: u128,
    pub dur_ns: u128,
    pub fields: Fields,
}

impl View for Event {
    type V = EventView;

    open spec fn view(&self) -> EventView {
        EventView {
            name: self.name@,
            run_id: self.run_id@,
            seq: self.seq,
            t_ns: self.t_ns,
            dur_ns: self.dur_ns,
            fields: self.fields,
        }
    }
}

/// What events are numbered by, where measuring is on.
#[derive(Debug)]
pub struct Recorder {
    run_id: Option<String>,
    seq: u64,
}

/// The state of a [`Recorder`]: the run, where measuring is on, and how many
/// events there were.
pub struct RecorderView {
    pub run: Option<Seq<char>>,
    pub seq: u64,
}

impl View for Recorder {
    type V = RecorderView;

    closed spec fn view(&self) -> RecorderView {
        RecorderView { run: crate::config::text_of(self.run_id), seq: self.seq }
    }
}

/// The id of a run that was given none.
pub open spec fn default_run(process: u32, millis: u128) -> Seq<char> {
    crate::text::decimal(process as nat) + "-"@ + crate::text::decimal(millis as nat)
}

/// Names a run that was given no id: by the process and the time.
pub fn default_run_id(process: u32, millis: u128) -> (id: String)
    ensures
        id@ == default_run(process, millis),
{
    let mut id = decimal_text(process as u128);
    id.append("-");
    let time = decimal_text(millis);
    id.append(time.as_str());
    id
}

/// How often a heartbeat is due, in nanoseconds.
pub const HEARTBEAT_NS: u128 = 20_000_000;

/// How late a heartbeat is, given the time since the last one. Missed beats are
/// merged, so a long stall shows as one large gap.
pub fn lateness(gap_ns: u128) -> (late: u128)
    ensures
        late == (if gap_ns > HEARTBEAT_NS {
            gap_ns - HEARTBEAT_NS
        } else {
            0
        }),
{
    if gap_ns > HEARTBEAT_NS {
        gap_ns - HEARTBEAT_NS
    } else {
        0
    }
}

/// How a cache write ended: a write that failed because a newer one is due is no
/// error.
pub fn write_outcome(stored: bool, current: bool) -> (outcome: &'static str)
    ensures
        outcome@ == (if stored {
            "ok"@
        } else if !current {
            "superseded"@
        } else {
            "error"@
        }),
{
    if stored {
        "ok"
    } else if !current {
        "superseded"
    } else {
        "error"
    }
}

impl Recorder {
    /// Measures a run, or nothing where it has no id.
    pub fn new(run_id: Option<String>) -> (recorder: Recorder)
        ensures
            recorder@ == (RecorderView { run: crate::config::text_of(run_id), seq: 0 }),
    {
        Recorder { run_id, seq: 0 }
    }
}

/// True when events are recorded. Used to arm the event-loop heartbeat only
/// under measurement, so that otherwise nothing wakes the loop.
pub fn enabled(recorder: &Recorder) -> (on: bool)
    ensures
        on == (recorder@.run is Some),
{
    recorder.run_id.is_some()
}

/// The event that took `elapsed_ns` and ended now, `t_ns` after the start of
/// the process. None where measuring is off, or was when the event began.
pub fn finish(
    recorder: &mut Recorder,
    name: &'static str,
    t_ns: u128,
    elapsed_ns: Option<u128>,
    fields: Fields,
) -> (event: Option<Event>)
    ensures
        match (old(recorder)@.run, elapsed_ns) {
            (Some(run), Some(dur_ns)) => {
                &&& event matches Some(event) && event@ == (EventView {
                    name: name@,
                    run_id: run,
                    seq: old(recorder)@.seq,
                    t_ns,
                    dur_ns,
                    fields,
                })
                &&& final(recorder)@ == (RecorderView {
                    seq: crate::session::following(old(recorder)@.seq),
                    ..old(recorder)@
                })
            },
            _ => event is None && final(recorder)@ == old(recorder)@,
        },
{
    let run_id = match &recorder.run_id {
        Some(run_id) => run_id.clone(),
        None => {
            return None;
        },
    };
    match elapsed_ns {
        Some(dur_ns) => {
            let seq: u64 = recorder.seq;
            recorder.seq = seq.wrapping_add(1);
            Some(Event { name, run_id, seq, t_ns, dur_ns, fields })
        },
        None => None,
    }
}

/// A point event with no duration -- a heartbeat tick, say, whose interesting
/// quantity is its lateness rather than how long handling took.
pub fn mark(recorder: &mut Recorder, name: &'static str, t_ns: u128, fields: Fields) -> (event: Option<Event>)
    ensures
        match old(recorder)@.run {
            Some(run) => {
                &&& event matches Some(event) && event@ == (EventView {
                    name: name@,
                    run_id: run,
                    seq: old(recorder)@.seq,
                    t_ns,
                    dur_ns: 0,
                    fields,
                })
                &&& final(recorder)@ == (RecorderView {
                    seq: crate::session::following(old(recorder)@.seq),
                    ..old(recorder)@
                })
            },
            None => event is None && final(recorder)@ == old(recorder)@,
        },
{
    finish(recorder, name, t_ns, Some(0), fields)
}

/// A heartbeat that comes in time is not late, and any other is late by what
/// passed beyond the time between two beats.
pub proof fn late_beats_are_late_by_the_excess(gap_ns: u128, late: u128)
    requires
        call_ensures(lateness, (gap_ns,), late),
    ensures
        gap_ns <= 20_000_000 ==> late == 0,
        gap_ns > 20_000_000 ==> late + 20_000_000 == gap_ns,
{
}

/// A cache write is an error only where it failed and was still wanted.
pub proof fn only_wanted_writes_fail(stored: bool, current: bool, outcome: &'static str)
    requires
        call_ensures(write_outcome, (stored, current), outcome),
    ensures
        outcome@ == "ok"@ <==> stored,
        outcome@ == "superseded"@ <==> !stored && !current,
        outcome@ == "error"@ <==> !stored && current,
{
    reveal_strlit("ok");
    reveal_strlit("superseded");
    reveal_strlit("error");
    assert("ok"@.len() == 2);
    assert("superseded"@.len() == 10);
    assert("error"@.len() == 5);
}

/// Every event of a run has its number: the one behind the last. Where measuring
/// is off there is none, and none is counted.
pub proof fn events_are_numbered(
    recorder: &mut Recorder,
    name: &'static str,
    t_ns: u128,
    elapsed_ns: Option<u128>,
    fields: Fields,
    event: Option<Event>,
)
    requires
        call_ensures(finish, (recorder, name, t_ns, elapsed_ns, fields), event),
    ensures
        event is Some <==> old(recorder)@.run is Some && elapsed_ns is Some,
        event is Some ==> event->0.seq == old(recorder)@.seq && event->0.name@ == name@
            && event->0.t_ns == t_ns && event->0.dur_ns == elapsed_ns->0 && event->0.fields
            == fields && event->0.run_id@ == old(recorder)@.run->0,
        event is Some && old(recorder)@.seq < u64::MAX ==> final(recorder)@.seq
            == old(recorder)@.seq + 1,
        event is None ==> final(recorder)@ == old(recorder)@,
        final(recorder)@.run == old(recorder)@.run,
{
    if let Some(event) = event {
        assert(event@.seq == event.seq && event@.name == event.name@ && event@.t_ns == event.t_ns
            && event@.dur_ns == event.dur_ns && event@.fields == event.fields && event@.run_id
            == event.run_id@);
    }
}

/// A mark is an event without a duration.
pub proof fn marks_take_no_time(
    recorder: &mut Recorder,
    name: &'static str,
    t_ns: u128,
    fields: Fields,
    event: Option<Event>,
)
    requires
        call_ensures(mark, (recorder, name, t_ns, fields), event),
    ensures
        event is Some <==> old(recorder)@.run is Some,
        event is Some ==> event->0@.dur_ns == 0 && event->0@.t_ns == t_ns && event->0@.fields
            == fields,
        event is Some && old(recorder)@.seq < u64::MAX ==> final(recorder)@.seq
            == old(recorder)@.seq + 1,
{
}

} // verus!
