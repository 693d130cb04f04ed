//! The poll engine: the readings of a group, gated, counted and batched.

use vstd::prelude::*;

use crate::clock::{Duration, Instant};
use crate::config::{PollGroup, PublishMode, SignalSpec};
use crate::device::{copy_text, Quality, Reading, ReadingV};
use crate::engine::{
    enqueue, enqueued, lemma_int_push, publish_view, publishes, seen, Engine, Publish, PublishV,
};
use crate::health::{bump, bumped, Health};
use crate::publish::{cycle_overran, passes, sample_of, SampleV, StateV};

verus! {

/// How a gate is set: the publish mode and the window, and when the samples were captured.
pub struct GateV {
    pub mode: PublishMode,
    pub batch_ms: u64,
    pub now: Instant,
    pub server_ts: Seq<char>,
}

impl ReadingV {
    /// The sample this reading is published as.
    pub open spec fn sample(self, server_ts: Seq<char>) -> SampleV {
        SampleV {
            value: self.value,
            quality: self.quality,
            quality_raw: self.quality_raw,
            server_ts: Some(server_ts),
        }
    }
}

/// The counters once a polled reading has been counted: a bad one is a read error, too.
pub open spec fn counted(h: Health, quality: Quality) -> Health {
    match quality {
        Quality::Good => Health { samples_good: bumped(h.samples_good, 1), ..h },
        Quality::Bad => Health {
            samples_bad: bumped(h.samples_bad, 1),
            read_errors: bumped(h.read_errors, 1),
            ..h
        },
        Quality::Uncertain => Health { samples_uncertain: bumped(h.samples_uncertain, 1), ..h },
    }
}

/// A state once a reading of that quality came in.
pub open spec fn observed(st: StateV, quality: Quality, now: Instant) -> StateV {
    if quality == Quality::Good {
        StateV { last_good: Some(now), ..st }
    } else {
        st
    }
}

/// The counters once a sample has passed the publish filter.
pub open spec fn counted_passed(h: Health, quality: Quality, mode: PublishMode) -> Health {
    if quality == Quality::Good && mode == PublishMode::OnChange {
        Health { samples_changed: bumped(h.samples_changed, 1), ..h }
    } else {
        h
    }
}

/// A state once a sample has passed the publish filter: a good value is now in flight.
pub open spec fn in_flight(st: StateV, r: ReadingV) -> StateV {
    if r.quality == Quality::Good {
        StateV { pending: Some(r.value), ..st }
    } else {
        st
    }
}

/// What one polled reading comes to: the signal's state, the counters, and the update to publish now.
pub open spec fn poll_step(st: StateV, h: Health, r: ReadingV, gate: GateV, moved: Seq<bool>) -> (
    StateV,
    Health,
    Option<PublishV>,
) {
    let h1 = counted(h, r.quality);
    let st1 = observed(st, r.quality, gate.now);
    if passes(st1.reference(), r.value, r.quality, gate.mode, moved) {
        let (st2, out) = enqueued(
            in_flight(st1, r),
            r.signal_id,
            r.sample(gate.server_ts),
            gate.now,
            gate.batch_ms,
        );
        (st2, counted_passed(h1, r.quality, gate.mode), out)
    } else {
        (st1, Health { samples_suppressed: bumped(h1.samples_suppressed, 1), ..h1 }, None)
    }
}

/// How a group filters its samples, and when its readings were captured.
#[derive(Debug)]
pub struct Gate {
    pub mode: PublishMode,
    pub batch_ms: u64,
    pub now: Instant,
    pub server_ts: String,
}

impl View for Gate {
    type V = GateV;

    open spec fn view(&self) -> GateV {
        GateV {
            mode: self.mode,
            batch_ms: self.batch_ms,
            now: self.now,
            server_ts: self.server_ts@,
        }
    }
}

/// Gate, count and batch one polled reading. `moved` is the deadband's verdict on each of its numbers,
/// measured from what [`Engine::reference`] holds for the signal.
pub fn process_signal(
    engine: &mut Engine,
    reading: &Reading,
    gate: &Gate,
    moved: &Vec<bool>,
    health: &mut Health,
) -> (r: Option<Publish>)
    requires
        old(engine).wf(),
    ensures
        ({
            let (st, h, out) = poll_step(
                old(engine).signal(reading@.signal_id),
                *old(health),
                reading@,
                gate@,
                moved@,
            );
            &&& final(engine).is_update_of(*old(engine), reading@.signal_id, st)
            &&& *final(health) == h
            &&& publish_view(r) == out
        }),
{
    let id = reading.signal_id.as_str();
    let ghost before = *engine;
    let mut st = engine.take(id);
    let ghost mid = *engine;
    match reading.quality {
        Quality::Good => {
            health.samples_good = bump(health.samples_good, 1);
            st.last_good = Some(gate.now);
        },
        Quality::Bad => {
            health.samples_bad = bump(health.samples_bad, 1);
            health.read_errors = bump(health.read_errors, 1);
        },
        Quality::Uncertain => {
            health.samples_uncertain = bump(health.samples_uncertain, 1);
        },
    }
    let mut out: Option<Publish> = None;
    if st.gate_passes(&reading.value, reading.quality, gate.mode, moved) {
        if reading.quality == Quality::Good {
            if gate.mode == PublishMode::OnChange {
                health.samples_changed = bump(health.samples_changed, 1);
            }
            st.pending = Some(reading.value.copy());
        }
        let sample = sample_of(
            reading.value.copy(),
            reading.quality,
            copy_text(&reading.quality_raw),
            Some(gate.server_ts.clone()),
        );
        out = enqueue(&mut st, id, sample, gate.now, gate.batch_ms);
    } else {
        health.samples_suppressed = bump(health.samples_suppressed, 1);
    }
    engine.put(id, st);
    proof {
        lemma_two_updates(before, mid, *engine, id@, st@);
    }
    out
}

/// Taking a signal's state out and putting a new one back is one update.
pub proof fn lemma_two_updates(before: Engine, mid: Engine, after: Engine, id: Seq<char>, st: StateV)
    requires
        mid.is_update_of(before, id, StateV::unread()),
        after.is_update_of(mid, id, st),
    ensures
        after.is_update_of(before, id, st),
{
    let n = before.known().len() as int;
    if !before.known().contains(id) {
        assert(before.known().push(id)[n] == id);
    }
    assert forall|k: Seq<char>| k != id implies #[trigger] after.signal(k) == before.signal(k) by {
        assert(after.signal(k) == mid.signal(k));
    }
}

/// The last reading of a signal, by its place.
pub open spec fn reading_of(readings: Seq<Reading>, id: Seq<char>) -> Option<int>
    decreases readings.len(),
{
    if readings.len() == 0 {
        None
    } else if readings.last().signal_id@ == id {
        Some(readings.len() - 1)
    } else {
        reading_of(readings.drop_last(), id)
    }
}

/// The place of the last reading of a signal.
pub fn find_reading(readings: &Vec<Reading>, id: &str) -> (r: Option<usize>)
    ensures
        match r {
            Some(i) => i < readings@.len() && reading_of(readings@, id@) == Some(i as int)
                && readings@[i as int].signal_id@ == id@,
            None => reading_of(readings@, id@) is None,
        },
{
    let wanted = id.to_owned();
    let mut n: usize = readings.len();
    assert(readings@.take(n as int) =~= readings@);
    while n > 0
        invariant
            n <= readings@.len(),
            wanted@ == id@,
            reading_of(readings@, id@) == reading_of(readings@.take(n as int), id@),
        decreases n,
    {
        let ghost s = readings@.take(n as int);
        assert(s.drop_last() =~= readings@.take(n - 1));
        assert(s.last() == readings@[n - 1]);
        if readings[n - 1].signal_id == wanted {
            return Some(n - 1);
        }
        n = n - 1;
    }
    None
}

/// What gating the first signals of a group comes to.
pub struct GroupV {
    pub states: spec_fn(Seq<char>) -> StateV,
    pub known: Seq<Seq<char>>,
    pub health: Health,
    pub out: Seq<PublishV>,
}

/// What gating the first `n` signals of a group comes to: each signal that was read takes its step, in
/// the order they are configured.
pub open spec fn group_run(
    start: GroupV,
    signals: Seq<SignalSpec>,
    n: nat,
    readings: Seq<Reading>,
    gate: GateV,
    moved: Seq<Vec<bool>>,
) -> GroupV
    decreases n,
{
    if n == 0 {
        start
    } else {
        let prev = group_run(start, signals, (n - 1) as nat, readings, gate, moved);
        let id = signals[n - 1].tag_path@;
        match reading_of(readings, id) {
            None => prev,
            Some(at) => {
                let (st, h, out) = poll_step(
                    (prev.states)(id),
                    prev.health,
                    readings[at]@,
                    gate,
                    moved[n - 1]@,
                );
                GroupV {
                    states: |k: Seq<char>|
                        if k == id {
                            st
                        } else {
                            (prev.states)(k)
                        },
                    known: seen(prev.known, id),
                    health: h,
                    out: match out {
                        Some(p) => prev.out.push(p),
                        None => prev.out,
                    },
                }
            },
        }
    }
}

/// Where the gating of a group or a frame starts.
pub open spec fn start_of(e: Engine, h: Health) -> GroupV {
    GroupV { states: |k: Seq<char>| e.signal(k), known: e.known(), health: h, out: Seq::empty() }
}

/// The engine, the counters and the updates are what the gating came to.
pub open spec fn gated(
    before: Engine,
    after: Engine,
    end: GroupV,
    health: Health,
    out: Seq<PublishV>,
) -> bool {
    &&& after.wf()
    &&& after.since() == before.since()
    &&& forall|k: Seq<char>| #[trigger] after.signal(k) == (end.states)(k)
    &&& after.known() == end.known
    &&& health == end.health
    &&& out == end.out
}

/// Gate, count and batch the readings of a group; returns the updates to publish now. Readings are
/// matched to signals by id. `moved` holds, for each signal, the deadband's verdict on each number of
/// its reading.
pub fn process_group(
    engine: &mut Engine,
    group: &PollGroup,
    readings: &Vec<Reading>,
    gate: &Gate,
    moved: &Vec<Vec<bool>>,
    health: &mut Health,
) -> (out: Vec<Publish>)
    requires
        old(engine).wf(),
        moved@.len() == group.signals@.len(),
    ensures
        gated(
            *old(engine),
            *final(engine),
            group_run(
                start_of(*old(engine), *old(health)),
                group.signals@,
                group.signals@.len(),
                readings@,
                gate@,
                moved@,
            ),
            *final(health),
            publishes(out@),
        ),
{
    let mut out: Vec<Publish> = Vec::new();
    let mut i: usize = 0;
    let ghost before = *engine;
    let ghost start = start_of(before, *health);
    assert(publishes(out@) =~= Seq::<PublishV>::empty());
    while i < group.signals.len()
        invariant
            i <= group.signals@.len(),
            moved@.len() == group.signals@.len(),
            engine.wf(),
            engine.since() == before.since(),
            ({
                let now = group_run(start, group.signals@, i as nat, readings@, gate@, moved@);
                &&& forall|k: Seq<char>| #[trigger] engine.signal(k) == (now.states)(k)
                &&& engine.known() == now.known
                &&& *health == now.health
                &&& publishes(out@) == now.out
            }),
        decreases group.signals@.len() - i,
    {
        let ghost sofar = out@;
        match find_reading(readings, group.signals[i].tag_path.as_str()) {
            None => {},
            Some(at) => {
                match process_signal(engine, &readings[at], gate, &moved[i], health) {
                    Some(p) => {
                        out.push(p);
                        assert(publishes(out@) =~= publishes(sofar).push(p@));
                    },
                    None => {},
                }
            },
        }
        i = i + 1;
    }
    out
}

/// Count one poll cycle, and an overrun when it took longer than its interval.
pub fn record_cycle(elapsed: Duration, interval: Duration, health: &mut Health)
    ensures
        *final(health) == (Health {
            poll_cycles: bumped(old(health).poll_cycles, 1),
            overruns: if elapsed.nanos > interval.nanos {
                bumped(old(health).overruns, 1)
            } else {
                old(health).overruns
            },
            ..*old(health)
        }),
{
    health.poll_cycles = bump(health.poll_cycles, 1);
    if cycle_overran(elapsed, interval) {
        health.overruns = bump(health.overruns, 1);
    }
}

// ---- what the publish filter keeps ----

/// A reading that is not good is never suppressed: it is published now or waits in the window, and it
/// leaves what later values are compared with alone.
pub proof fn a_failure_is_never_swallowed(
    st: StateV,
    h: Health,
    r: ReadingV,
    gate: GateV,
    moved: Seq<bool>,
)
    requires
        r.quality != Quality::Good,
    ensures
        ({
            let (st2, h2, out) = poll_step(st, h, r, gate, moved);
            &&& h2.samples_suppressed == h.samples_suppressed
            &&& st2.reference() == st.reference()
            &&& gate.batch_ms == 0 ==> out == Some(
                PublishV { signal_id: r.signal_id, samples: seq![r.sample(gate.server_ts)] },
            )
            &&& gate.batch_ms > 0 ==> st2.batcher.buffer == st.batcher.buffer.push(
                r.sample(gate.server_ts),
            )
        }),
{
}

/// With `always`, every reading is published or waits in the window.
pub proof fn always_publishes_every_reading(
    st: StateV,
    h: Health,
    r: ReadingV,
    gate: GateV,
    moved: Seq<bool>,
)
    requires
        gate.mode == PublishMode::Always,
    ensures
        ({
            let (st2, h2, out) = poll_step(st, h, r, gate, moved);
            &&& h2.samples_suppressed == h.samples_suppressed
            &&& out is Some || st2.batcher.buffer == st.batcher.buffer.push(r.sample(gate.server_ts))
        }),
{
}

/// A good value whose publish failed is compared with nothing: the next value meets the comparison the
/// failed one met.
pub proof fn a_failed_publish_leaves_the_comparison_where_it_was(
    st: StateV,
    h: Health,
    r: ReadingV,
    gate: GateV,
    moved: Seq<bool>,
)
    requires
        st.pending is None,
    ensures
        poll_step(st, h, r, gate, moved).0.settled(false).reference() == st.reference(),
{
}

/// A good value whose publish was confirmed is what later values are compared with, and so is one that
/// still waits in the window.
pub proof fn a_passed_value_is_the_next_comparison(
    st: StateV,
    h: Health,
    r: ReadingV,
    gate: GateV,
    moved: Seq<bool>,
)
    requires
        r.quality == Quality::Good,
        passes(st.reference(), r.value, r.quality, gate.mode, moved),
    ensures
        poll_step(st, h, r, gate, moved).0.reference() == Some(r.value),
        poll_step(st, h, r, gate, moved).0.settled(true).baseline == Some(r.value),
        poll_step(st, h, r, gate, moved).0.settled(true).reference() == Some(r.value),
{
}

/// A good reading equal to the value before it is suppressed on change, when none of its numbers is
/// said to have moved.
pub proof fn an_unchanged_value_is_suppressed_on_change(
    st: StateV,
    h: Health,
    r: ReadingV,
    gate: GateV,
    moved: Seq<bool>,
)
    requires
        r.quality == Quality::Good,
        gate.mode == PublishMode::OnChange,
        st.reference() == Some(r.value),
        forall|i: int| 0 <= i < moved.len() ==> !moved[i],
    ensures
        poll_step(st, h, r, gate, moved).2 is None,
        poll_step(st, h, r, gate, moved).0.batcher == st.batcher,
        poll_step(st, h, r, gate, moved).1.samples_suppressed == bumped(h.samples_suppressed, 1),
{
}

// ---- what one reading comes to ----

/// A polled reading is counted under its quality and under no other; a bad one is a read error, too. Of
/// those that pass, a good one on change counts as changed; one that does not pass counts as suppressed.
/// Nothing else is counted.
pub proof fn a_polled_reading_is_counted_once(
    st: StateV,
    h: Health,
    r: ReadingV,
    gate: GateV,
    moved: Seq<bool>,
)
    ensures
        ({
            let h2 = poll_step(st, h, r, gate, moved).1;
            let pass = passes(st.reference(), r.value, r.quality, gate.mode, moved);
            h2 == (Health {
                samples_good: if r.quality == Quality::Good {
                    bumped(h.samples_good, 1)
                } else {
                    h.samples_good
                },
                samples_bad: if r.quality == Quality::Bad {
                    bumped(h.samples_bad, 1)
                } else {
                    h.samples_bad
                },
                samples_uncertain: if r.quality == Quality::Uncertain {
                    bumped(h.samples_uncertain, 1)
                } else {
                    h.samples_uncertain
                },
                read_errors: if r.quality == Quality::Bad {
                    bumped(h.read_errors, 1)
                } else {
                    h.read_errors
                },
                samples_changed: if pass && r.quality == Quality::Good && gate.mode
                    == PublishMode::OnChange {
                    bumped(h.samples_changed, 1)
                } else {
                    h.samples_changed
                },
                samples_suppressed: if pass {
                    h.samples_suppressed
                } else {
                    bumped(h.samples_suppressed, 1)
                },
                ..h
            })
        }),
{
}

/// A polled reading that passes is published at once, or waits behind what waits already, as one sample
/// with the reading's value and quality and the time it was captured; a good one is in flight from then
/// on. One that does not pass leaves nothing but that it was read.
pub proof fn a_polled_reading_goes_out_or_waits_as_it_was_read(
    st: StateV,
    h: Health,
    r: ReadingV,
    gate: GateV,
    moved: Seq<bool>,
)
    ensures
        ({
            let (st2, h2, out) = poll_step(st, h, r, gate, moved);
            let pass = passes(st.reference(), r.value, r.quality, gate.mode, moved);
            let sample = SampleV {
                value: r.value,
                quality: r.quality,
                quality_raw: r.quality_raw,
                server_ts: Some(gate.server_ts),
            };
            &&& out == (if pass && gate.batch_ms == 0 {
                Some(PublishV { signal_id: r.signal_id, samples: seq![sample] })
            } else {
                None::<PublishV>
            })
            &&& st2.batcher.buffer == (if pass && gate.batch_ms > 0 {
                st.batcher.buffer.push(sample)
            } else {
                st.batcher.buffer
            })
            &&& st2.batcher.window_open == (if pass && gate.batch_ms > 0 && st.batcher.window_open is None {
                Some(gate.now)
            } else {
                st.batcher.window_open
            })
            &&& st2.pending == (if pass && r.quality == Quality::Good {
                Some(r.value)
            } else {
                st.pending
            })
            &&& st2.baseline == st.baseline
            &&& st2.last_good == (if r.quality == Quality::Good {
                Some(gate.now)
            } else {
                st.last_good
            })
            &&& st2.last_eligible == st.last_eligible
        }),
{
}

// ---- what the readings of a group come to ----

/// The reading of a signal is the last one under its id.
pub proof fn the_last_reading_of_a_signal_counts(readings: Seq<Reading>, id: Seq<char>)
    ensures
        match reading_of(readings, id) {
            Some(at) => {
                &&& 0 <= at < readings.len()
                &&& readings[at].signal_id@ == id
                &&& forall|j: int|
                    at < j < readings.len() ==> (#[trigger] readings[j]).signal_id@ != id
            },
            None => forall|j: int|
                0 <= j < readings.len() ==> (#[trigger] readings[j]).signal_id@ != id,
        },
    decreases readings.len(),
{
    if readings.len() > 0 && readings.last().signal_id@ != id {
        let init = readings.drop_last();
        the_last_reading_of_a_signal_counts(init, id);
        let from = match reading_of(init, id) {
            Some(at) => at + 1,
            None => 0,
        };
        assert forall|j: int| from <= j < readings.len() implies (#[trigger] readings[j]).signal_id@
            != id by {
            if j < init.len() {
                assert(init[j] == readings[j]);
            }
        }
    }
}

/// No two signals have one id.
pub open spec fn distinct_tags(signals: Seq<SignalSpec>) -> bool {
    forall|i: int, j: int|
        0 <= i < j < signals.len() ==> (#[trigger] signals[i]).tag_path@ != (
        #[trigger] signals[j]).tag_path@
}

/// What a step comes to for its signal does not depend on what was counted before.
proof fn lemma_steps_apart(st: StateV, h: Health, g: Health, r: ReadingV, gate: GateV, moved: Seq<bool>)
    ensures
        poll_step(st, h, r, gate, moved).0 == poll_step(st, g, r, gate, moved).0,
        poll_step(st, h, r, gate, moved).2 == poll_step(st, g, r, gate, moved).2,
{
}

/// The signals of a group that were read take their steps from the states they had, the others and
/// those of other groups keep theirs; what is handed out are the updates of those steps, in order.
proof fn lemma_group(
    start: GroupV,
    signals: Seq<SignalSpec>,
    n: nat,
    readings: Seq<Reading>,
    gate: GateV,
    moved: Seq<Vec<bool>>,
) -> (places: Seq<int>)
    requires
        distinct_tags(signals),
        n <= signals.len(),
    ensures
        ({
            let end = group_run(start, signals, n, readings, gate, moved);
            &&& forall|i: int|
                0 <= i < n ==> (end.states)((#[trigger] signals[i]).tag_path@) == (match reading_of(
                    readings,
                    signals[i].tag_path@,
                ) {
                    Some(at) => poll_step(
                        (start.states)(signals[i].tag_path@),
                        start.health,
                        readings[at]@,
                        gate,
                        moved[i]@,
                    ).0,
                    None => (start.states)(signals[i].tag_path@),
                })
            &&& forall|k: Seq<char>|
                (forall|i: int| 0 <= i < n ==> (#[trigger] signals[i]).tag_path@ != k) ==> (
                #[trigger] (end.states)(k)) == (start.states)(k)
            &&& end.out.len() == start.out.len() + places.len()
            &&& forall|j: int| 0 <= j < start.out.len() ==> #[trigger] end.out[j] == start.out[j]
            &&& forall|i: int, j: int| 0 <= i < j < places.len() ==> places[i] < places[j]
            &&& forall|p: int| #[trigger]
                places.contains(p) <==> 0 <= p < n && (reading_of(readings, signals[p].tag_path@) matches Some(
                    at,
                ) && poll_step(
                    (start.states)(signals[p].tag_path@),
                    start.health,
                    readings[at]@,
                    gate,
                    moved[p]@,
                ).2 is Some)
            &&& forall|j: int|
                0 <= j < places.len() ==> Some(#[trigger] end.out[start.out.len() + j]) == poll_step(
                    (start.states)(signals[places[j]].tag_path@),
                    start.health,
                    readings[reading_of(readings, signals[places[j]].tag_path@)->0]@,
                    gate,
                    moved[places[j]]@,
                ).2
        }),
    decreases n,
{
    if n == 0 {
        Seq::empty()
    } else {
        let m = (n - 1) as nat;
        let prev = lemma_group(start, signals, m, readings, gate, moved);
        let mid = group_run(start, signals, m, readings, gate, moved);
        let end = group_run(start, signals, n, readings, gate, moved);
        let id = signals[n - 1].tag_path@;
        assert forall|i: int| 0 <= i < m implies (#[trigger] signals[i]).tag_path@ != id by {
            assert(signals[i].tag_path@ != signals[n - 1].tag_path@);
        }
        assert((mid.states)(id) == (start.states)(id));
        assert forall|i: int| 0 <= i < prev.len() implies 0 <= #[trigger] prev[i] < m by {
            assert(prev.contains(prev[i]));
        }
        match reading_of(readings, id) {
            None => prev,
            Some(at) => {
                lemma_steps_apart(
                    (start.states)(id),
                    mid.health,
                    start.health,
                    readings[at]@,
                    gate,
                    moved[n - 1]@,
                );
                let out = poll_step(
                    (start.states)(id),
                    start.health,
                    readings[at]@,
                    gate,
                    moved[n - 1]@,
                ).2;
                if out is Some {
                    let next = prev.push(n - 1);
                    assert forall|p: int| #[trigger] next.contains(p) <==> prev.contains(p) || p == n - 1 by {
                        lemma_int_push(prev, n - 1, p);
                    }
                    assert(end.out == mid.out.push(out->0));
                    assert forall|j: int| 0 <= j < next.len() implies Some(
                        #[trigger] end.out[start.out.len() + j],
                    ) == poll_step(
                        (start.states)(signals[next[j]].tag_path@),
                        start.health,
                        readings[reading_of(readings, signals[next[j]].tag_path@)->0]@,
                        gate,
                        moved[next[j]]@,
                    ).2 by {
                        if j < prev.len() {
                            assert(end.out[start.out.len() + j] == mid.out[start.out.len() + j]);
                        }
                    }
                    next
                } else {
                    prev
                }
            },
        }
    }
}

/// Polled without a window, every signal of a group whose reading passes is published, and no other:
/// one update each, in the order they are configured, with the signal's id and the one sample that was
/// read of it. The places of those signals are returned.
pub proof fn every_signal_that_passes_is_published(
    before: Engine,
    after: Engine,
    signals: Seq<SignalSpec>,
    readings: Seq<Reading>,
    gate: GateV,
    moved: Seq<Vec<bool>>,
    h0: Health,
    h1: Health,
    out: Seq<PublishV>,
) -> (places: Seq<int>)
    requires
        distinct_tags(signals),
        gate.batch_ms == 0,
        gated(
            before,
            after,
            group_run(start_of(before, h0), signals, signals.len(), readings, gate, moved),
            h1,
            out,
        ),
    ensures
        out.len() == places.len(),
        forall|i: int, j: int| 0 <= i < j < places.len() ==> places[i] < places[j],
        forall|p: int| #[trigger]
            places.contains(p) <==> 0 <= p < signals.len() && (reading_of(
                readings,
                signals[p].tag_path@,
            ) matches Some(at) && passes(
                before.signal(signals[p].tag_path@).reference(),
                readings[at].value@,
                readings[at].quality,
                gate.mode,
                moved[p]@,
            )),
        forall|j: int|
            0 <= j < places.len() ==> (#[trigger] out[j]) == ({
                let r = readings[reading_of(readings, signals[places[j]].tag_path@)->0]@;
                PublishV {
                    signal_id: signals[places[j]].tag_path@,
                    samples: seq![
                        SampleV {
                            value: r.value,
                            quality: r.quality,
                            quality_raw: r.quality_raw,
                            server_ts: Some(gate.server_ts),
                        },
                    ],
                }
            }),
{
    let start = start_of(before, h0);
    let places = lemma_group(start, signals, signals.len(), readings, gate, moved);
    assert forall|p: int| 0 <= p < signals.len() implies (reading_of(
        readings,
        (#[trigger] signals[p]).tag_path@,
    ) matches Some(at) ==> 0 <= at < readings.len() && readings[at].signal_id@ == signals[p].tag_path@) by {
        the_last_reading_of_a_signal_counts(readings, signals[p].tag_path@);
    }
    assert forall|j: int| 0 <= j < places.len() implies (#[trigger] out[j]) == ({
        let r = readings[reading_of(readings, signals[places[j]].tag_path@)->0]@;
        PublishV {
            signal_id: signals[places[j]].tag_path@,
            samples: seq![
                SampleV {
                    value: r.value,
                    quality: r.quality,
                    quality_raw: r.quality_raw,
                    server_ts: Some(gate.server_ts),
                },
            ],
        }
    }) by {
        assert(places.contains(places[j]));
        let end = group_run(start, signals, signals.len(), readings, gate, moved);
        assert(out[j] == end.out[start.out.len() + j]);
    }
    places
}

/// Polled with a window nothing goes out: every signal of a group whose reading passes has it behind what
/// its window held, and every other window is as it was.
pub proof fn every_signal_that_passes_waits_in_its_window(
    before: Engine,
    after: Engine,
    signals: Seq<SignalSpec>,
    readings: Seq<Reading>,
    gate: GateV,
    moved: Seq<Vec<bool>>,
    h0: Health,
    h1: Health,
    out: Seq<PublishV>,
    p: int,
    at: int,
)
    requires
        distinct_tags(signals),
        gate.batch_ms > 0,
        gated(
            before,
            after,
            group_run(start_of(before, h0), signals, signals.len(), readings, gate, moved),
            h1,
            out,
        ),
        0 <= p < signals.len(),
        0 <= at < readings.len(),
        readings[at].signal_id@ == signals[p].tag_path@,
        forall|j: int|
            at < j < readings.len() ==> (#[trigger] readings[j]).signal_id@ != signals[p].tag_path@,
    ensures
        out.len() == 0,
        ({
            let id = signals[p].tag_path@;
            let r = readings[at]@;
            let had = before.signal(id).batcher.buffer;
            after.signal(id).batcher.buffer == (if passes(
                before.signal(id).reference(),
                r.value,
                r.quality,
                gate.mode,
                moved[p]@,
            ) {
                had.push(
                    SampleV {
                        value: r.value,
                        quality: r.quality,
                        quality_raw: r.quality_raw,
                        server_ts: Some(gate.server_ts),
                    },
                )
            } else {
                had
            })
        }),
{
    let places = lemma_group(start_of(before, h0), signals, signals.len(), readings, gate, moved);
    if places.len() > 0 {
        assert(places.contains(places[0]));
    }
    the_last_reading_of_a_signal_counts(readings, signals[p].tag_path@);
}

/// A signal of a group is gated by its own state, its own reading and its own verdict, and by nothing
/// else: where these agree for a signal in two groups, whatever the other signals of the groups are and
/// read, the signal comes to the same state in both. A signal that was not read, and one that is not of
/// the group, stays as it was.
pub proof fn a_signal_is_gated_by_its_own_reading(
    before: Engine,
    after: Engine,
    signals: Seq<SignalSpec>,
    readings: Seq<Reading>,
    moved: Seq<Vec<bool>>,
    h0: Health,
    h1: Health,
    out: Seq<PublishV>,
    before2: Engine,
    after2: Engine,
    signals2: Seq<SignalSpec>,
    readings2: Seq<Reading>,
    moved2: Seq<Vec<bool>>,
    g0: Health,
    g1: Health,
    out2: Seq<PublishV>,
    gate: GateV,
    p: int,
    q: int,
    other: Seq<char>,
)
    requires
        distinct_tags(signals),
        distinct_tags(signals2),
        gated(
            before,
            after,
            group_run(start_of(before, h0), signals, signals.len(), readings, gate, moved),
            h1,
            out,
        ),
        gated(
            before2,
            after2,
            group_run(start_of(before2, g0), signals2, signals2.len(), readings2, gate, moved2),
            g1,
            out2,
        ),
        0 <= p < signals.len(),
        0 <= q < signals2.len(),
        signals[p].tag_path@ == signals2[q].tag_path@,
        before.signal(signals[p].tag_path@) == before2.signal(signals[p].tag_path@),
        reading_of(readings, signals[p].tag_path@) is Some,
        reading_of(readings2, signals[p].tag_path@) is Some,
        readings[reading_of(readings, signals[p].tag_path@)->0]@ == readings2[reading_of(
            readings2,
            signals[p].tag_path@,
        )->0]@,
        moved[p]@ == moved2[q]@,
    ensures
        after.signal(signals[p].tag_path@) == after2.signal(signals[p].tag_path@),
        (forall|i: int| 0 <= i < signals.len() ==> (#[trigger] signals[i]).tag_path@ != other)
            ==> after.signal(other) == before.signal(other),
        (forall|i: int| 0 <= i < readings.len() ==> (#[trigger] readings[i]).signal_id@ != other)
            ==> after.signal(other) == before.signal(other),
{
    let s1 = start_of(before, h0);
    let s2 = start_of(before2, g0);
    lemma_group(s1, signals, signals.len(), readings, gate, moved);
    lemma_group(s2, signals2, signals2.len(), readings2, gate, moved2);
    let id = signals[p].tag_path@;
    let e1 = group_run(s1, signals, signals.len(), readings, gate, moved);
    let e2 = group_run(s2, signals2, signals2.len(), readings2, gate, moved2);
    assert((e1.states)(signals[p].tag_path@) == after.signal(id));
    assert((e2.states)(signals2[q].tag_path@) == after2.signal(id));
    lemma_steps_apart(
        before.signal(id),
        h0,
        g0,
        readings[reading_of(readings, id)->0]@,
        gate,
        moved[p]@,
    );
    assert(after.signal(other) == (e1.states)(other));
    the_last_reading_of_a_signal_counts(readings, other);
    if exists|i: int| 0 <= i < signals.len() && (#[trigger] signals[i]).tag_path@ == other {
        let i = choose|i: int| 0 <= i < signals.len() && (#[trigger] signals[i]).tag_path@ == other;
        assert((e1.states)(signals[i].tag_path@) == after.signal(other));
    }
}

/// What the first signals of a group hand out is handed out, however many follow, whether or not two of
/// them have one id.
pub proof fn nothing_handed_out_is_taken_back(
    start: GroupV,
    signals: Seq<SignalSpec>,
    m: nat,
    n: nat,
    readings: Seq<Reading>,
    gate: GateV,
    moved: Seq<Vec<bool>>,
)
    requires
        m <= n,
    ensures
        group_run(start, signals, m, readings, gate, moved).out.is_prefix_of(
            group_run(start, signals, n, readings, gate, moved).out,
        ),
    decreases n,
{
    if m < n {
        nothing_handed_out_is_taken_back(start, signals, m, (n - 1) as nat, readings, gate, moved);
        let a = group_run(start, signals, m, readings, gate, moved).out;
        let b = group_run(start, signals, (n - 1) as nat, readings, gate, moved).out;
        let c = group_run(start, signals, n, readings, gate, moved).out;
        assert(c.len() >= b.len() && c.subrange(0, a.len() as int) =~= b.subrange(0, a.len() as int));
    }
}

/// Without a window, every signal of a group that was read is published or suppressed, never both and
/// never neither, whether or not two of them have one id.
pub proof fn every_reading_is_published_or_suppressed(
    before: Engine,
    after: Engine,
    signals: Seq<SignalSpec>,
    readings: Seq<Reading>,
    gate: GateV,
    moved: Seq<Vec<bool>>,
    h0: Health,
    h1: Health,
    out: Seq<PublishV>,
) -> (read: Seq<int>)
    requires
        gate.batch_ms == 0,
        gated(
            before,
            after,
            group_run(start_of(before, h0), signals, signals.len(), readings, gate, moved),
            h1,
            out,
        ),
    ensures
        forall|i: int, j: int| 0 <= i < j < read.len() ==> read[i] < read[j],
        forall|p: int| #[trigger]
            read.contains(p) <==> 0 <= p < signals.len() && exists|j: int|
                0 <= j < readings.len() && (#[trigger] readings[j]).signal_id@ == signals[p].tag_path@,
        out.len() <= read.len(),
        h1.samples_suppressed == bumped(h0.samples_suppressed, read.len() - out.len()),
{
    let start = start_of(before, h0);
    let read = lemma_group_counts(start, signals, signals.len(), readings, gate, moved);
    assert forall|p: int| 0 <= p < signals.len() implies (reading_of(
        readings,
        #[trigger] signals[p].tag_path@,
    ) is Some <==> exists|j: int|
        0 <= j < readings.len() && (#[trigger] readings[j]).signal_id@ == signals[p].tag_path@) by {
        the_last_reading_of_a_signal_counts(readings, signals[p].tag_path@);
    }
    read
}

proof fn lemma_one_more(counter: u64, n: int)
    requires
        n >= 0,
    ensures
        bumped(bumped(counter, n), 1) == bumped(counter, n + 1),
        bumped(counter, 0) == counter,
{
}

proof fn lemma_out_or_suppressed(st: StateV, h: Health, r: ReadingV, gate: GateV, moved: Seq<bool>)
    requires
        gate.batch_ms == 0,
    ensures
        ({
            let (st2, h2, out) = poll_step(st, h, r, gate, moved);
            h2.samples_suppressed == (if out is Some {
                h.samples_suppressed
            } else {
                bumped(h.samples_suppressed, 1)
            })
        }),
{
}

proof fn lemma_group_counts(
    start: GroupV,
    signals: Seq<SignalSpec>,
    n: nat,
    readings: Seq<Reading>,
    gate: GateV,
    moved: Seq<Vec<bool>>,
) -> (read: Seq<int>)
    requires
        gate.batch_ms == 0,
        n <= signals.len(),
    ensures
        ({
            let end = group_run(start, signals, n, readings, gate, moved);
            &&& forall|i: int, j: int| 0 <= i < j < read.len() ==> read[i] < read[j]
            &&& forall|p: int| #[trigger]
                read.contains(p) <==> 0 <= p < n && reading_of(readings, signals[p].tag_path@) is Some
            &&& start.out.len() <= end.out.len() <= start.out.len() + read.len()
            &&& end.health.samples_suppressed == bumped(
                start.health.samples_suppressed,
                read.len() - (end.out.len() - start.out.len()),
            )
        }),
    decreases n,
{
    if n == 0 {
        Seq::empty()
    } else {
        let m = (n - 1) as nat;
        let prev = lemma_group_counts(start, signals, m, readings, gate, moved);
        assert forall|i: int| 0 <= i < prev.len() implies 0 <= #[trigger] prev[i] < m by {
            assert(prev.contains(prev[i]));
        }
        if let Some(at) = reading_of(readings, signals[n - 1].tag_path@) {
            let mid = group_run(start, signals, m, readings, gate, moved);
            let end = group_run(start, signals, n, readings, gate, moved);
            lemma_out_or_suppressed(
                (mid.states)(signals[n - 1].tag_path@),
                mid.health,
                readings[at]@,
                gate,
                moved[n - 1]@,
            );
            let held = prev.len() - (mid.out.len() - start.out.len());
            lemma_one_more(start.health.samples_suppressed, held);
            if end.out.len() == mid.out.len() {
                assert(end.health.samples_suppressed == bumped(mid.health.samples_suppressed, 1));
            } else {
                assert(end.out.len() == mid.out.len() + 1);
                assert(end.health.samples_suppressed == mid.health.samples_suppressed);
            }
            let next = prev.push(n - 1);
            assert forall|p: int| #[trigger] next.contains(p) <==> prev.contains(p) || p == n - 1 by {
                lemma_int_push(prev, n - 1, p);
            }
            next
        } else {
            prev
        }
    }
}

} // verus!
