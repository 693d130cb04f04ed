//! The push engine: the fields of a consumed frame, gated, counted and batched.

use vstd::prelude::*;

use crate::clock::Instant;
use crate::config::{DeadbandKind, DeadbandSpec, IoConfig, IoFieldSpec, PublishMode};
use crate::device::{copy_text, Quality, Reading, ReadingV};
use crate::engine::{
    enqueue, enqueued, lemma_int_push, publish_view, publishes, seen, Engine, Publish, PublishV,
};
use crate::health::{bump, bumped, Health};
use crate::ieee::F64;
use crate::poll::{
    counted_passed, gated, in_flight, lemma_two_updates, observed, start_of, Gate, GateV, GroupV,
};
use crate::publish::{passes, sample_of, SampleV, StateV};

verus! {

/// The counters once a field has been counted. An idle field is neither good nor bad.
pub open spec fn field_counted(h: Health, quality: Quality) -> Health {
    match quality {
        Quality::Good => Health { samples_good: bumped(h.samples_good, 1), ..h },
        Quality::Bad => Health { samples_bad: bumped(h.samples_bad, 1), ..h },
        Quality::Uncertain => h,
    }
}

/// A good field came sooner after the last one that passed than the configured spacing.
pub open spec fn too_soon(st: StateV, quality: Quality, now: Instant, sample_ms: u64) -> bool {
    &&& quality == Quality::Good
    &&& sample_ms > 0
    &&& st.last_eligible is Some
    &&& now.after(st.last_eligible->0) < sample_ms * 1_000_000
}

/// What one field of a frame comes to: the field's state, the counters, and the update to publish now.
pub open spec fn field_step(
    st: StateV,
    h: Health,
    r: ReadingV,
    gate: GateV,
    sample_ms: u64,
    moved: Seq<bool>,
) -> (StateV, Health, Option<PublishV>) {
    let h1 = field_counted(h, r.quality);
    let st1 = observed(st, r.quality, gate.now);
    if !too_soon(st1, r.quality, gate.now, sample_ms) && passes(
        st1.reference(),
        r.value,
        r.quality,
        gate.mode,
        moved,
    ) {
        let (st2, out) = enqueued(
            in_flight(StateV { last_eligible: Some(gate.now), ..st1 }, r),
            r.signal_id,
            r.sample(gate.server_ts),
            gate.now,
            gate.batch_ms,
        );
        (st2, counted_passed(h1, r.quality, gate.mode), out)
    } else {
        (st1, Health { samples_suppressed: bumped(h1.samples_suppressed, 1), ..h1 }, None)
    }
}

/// Gate, count and batch one field. `moved` is the deadband's verdict on each of its numbers, measured
/// from what [`Engine::reference`] holds for the field.
pub fn process_field(
    engine: &mut Engine,
    reading: &Reading,
    gate: &Gate,
    sample_ms: u64,
    moved: &Vec<bool>,
    health: &mut Health,
) -> (r: Option<Publish>)
    requires
        old(engine).wf(),
    ensures
        ({
            let (st, h, out) = field_step(
                old(engine).signal(reading@.signal_id),
                *old(health),
                reading@,
                gate@,
                sample_ms,
                moved@,
            );
            &&& final(engine).is_update_of(*old(engine), reading@.signal_id, st)
            &&& *final(health) == h
            &&& publish_view(r) == out
        }),
{
    let id = reading.signal_id.as_str();
    let ghost before = *engine;
    let mut st = engine.take(id);
    let ghost mid = *engine;
    match reading.quality {
        Quality::Good => {
            health.samples_good = bump(health.samples_good, 1);
            st.last_good = Some(gate.now);
        },
        Quality::Bad => {
            health.samples_bad = bump(health.samples_bad, 1);
        },
        Quality::Uncertain => {},
    }
    let throttled = match st.last_eligible {
        Some(last) => reading.quality == Quality::Good && sample_ms > 0 && gate.now.since(
            last,
        ).nanos < crate::clock::Duration::from_millis(sample_ms).nanos,
        None => false,
    };
    let mut out: Option<Publish> = None;
    if !throttled && st.gate_passes(&reading.value, reading.quality, gate.mode, moved) {
        st.last_eligible = Some(gate.now);
        if reading.quality == Quality::Good {
            if gate.mode == PublishMode::OnChange {
                health.samples_changed = bump(health.samples_changed, 1);
            }
            st.pending = Some(reading.value.copy());
        }
        let sample = sample_of(
            reading.value.copy(),
            reading.quality,
            copy_text(&reading.quality_raw),
            Some(gate.server_ts.clone()),
        );
        out = enqueue(&mut st, id, sample, gate.now, gate.batch_ms);
    } else {
        health.samples_suppressed = bump(health.samples_suppressed, 1);
    }
    engine.put(id, st);
    proof {
        lemma_two_updates(before, mid, *engine, id@, st@);
    }
    out
}

/// What gating the first `n` fields of a frame comes to, one after the other.
pub open spec fn frame_run(
    start: GroupV,
    n: nat,
    readings: Seq<Reading>,
    gate: GateV,
    sample_ms: u64,
    moved: Seq<Vec<bool>>,
) -> GroupV
    decreases n,
{
    if n == 0 {
        start
    } else {
        let prev = frame_run(start, (n - 1) as nat, readings, gate, sample_ms, moved);
        let r = readings[n - 1]@;
        let (st, h, out) = field_step(
            (prev.states)(r.signal_id),
            prev.health,
            r,
            gate,
            sample_ms,
            moved[n - 1]@,
        );
        GroupV {
            states: |k: Seq<char>|
                if k == r.signal_id {
                    st
                } else {
                    (prev.states)(k)
                },
            known: seen(prev.known, r.signal_id),
            health: h,
            out: match out {
                Some(p) => prev.out.push(p),
                None => prev.out,
            },
        }
    }
}

/// Gate, count and batch the fields of a frame; returns the updates to publish now. `moved` holds, for
/// each field, the deadband's verdict on each of its numbers.
pub fn process_frame(
    engine: &mut Engine,
    readings: &Vec<Reading>,
    gate: &Gate,
    sample_ms: u64,
    moved: &Vec<Vec<bool>>,
    health: &mut Health,
) -> (out: Vec<Publish>)
    requires
        old(engine).wf(),
        moved@.len() == readings@.len(),
    ensures
        gated(
            *old(engine),
            *final(engine),
            frame_run(
                start_of(*old(engine), *old(health)),
                readings@.len(),
                readings@,
                gate@,
                sample_ms,
                moved@,
            ),
            *final(health),
            publishes(out@),
        ),
{
    let mut out: Vec<Publish> = Vec::new();
    let mut i: usize = 0;
    let ghost before = *engine;
    let ghost start = start_of(before, *health);
    assert(publishes(out@) =~= Seq::<PublishV>::empty());
    while i < readings.len()
        invariant
            i <= readings@.len(),
            moved@.len() == readings@.len(),
            engine.wf(),
            engine.since() == before.since(),
            ({
                let now = frame_run(start, i as nat, readings@, gate@, sample_ms, moved@);
                &&& forall|k: Seq<char>| #[trigger] engine.signal(k) == (now.states)(k)
                &&& engine.known() == now.known
                &&& *health == now.health
                &&& publishes(out@) == now.out
            }),
        decreases readings@.len() - i,
    {
        let ghost sofar = out@;
        match process_field(engine, &readings[i], gate, sample_ms, &moved[i], health) {
            Some(p) => {
                out.push(p);
                assert(publishes(out@) =~= publishes(sofar).push(p@));
            },
            None => {},
        }
        i = i + 1;
    }
    out
}

/// The deadband of one pushed field.
#[derive(Debug)]
pub struct FieldDeadband {
    pub signal_id: String,
    pub deadband: DeadbandSpec,
}

/// No deadband: any change counts.
pub open spec fn no_deadband() -> DeadbandSpec {
    DeadbandSpec { kind: DeadbandKind::AnyChange, value: F64 { bits: 0 } }
}

/// The deadband a field is configured with.
pub open spec fn configured_deadband(field: IoFieldSpec) -> DeadbandSpec {
    match field.deadband {
        Some(d) => d,
        None => no_deadband(),
    }
}

/// The deadbands of the input fields of a connection, in order.
pub fn deadbands(io: &IoConfig) -> (r: Vec<FieldDeadband>)
    ensures
        r@.len() == io.input_fields@.len(),
        forall|i: int|
            0 <= i < r@.len() ==> (#[trigger] r@[i]).signal_id@ == io.input_fields@[i].stable_id(
                io.input_assembly,
            ) && r@[i].deadband == configured_deadband(io.input_fields@[i]),
{
    let mut out: Vec<FieldDeadband> = Vec::new();
    let mut i: usize = 0;
    while i < io.input_fields.len()
        invariant
            i <= io.input_fields@.len(),
            out@.len() == i,
            forall|k: int|
                0 <= k < i ==> (#[trigger] out@[k]).signal_id@ == io.input_fields@[k].stable_id(
                    io.input_assembly,
                ) && out@[k].deadband == configured_deadband(io.input_fields@[k]),
        decreases io.input_fields@.len() - i,
    {
        let field = &io.input_fields[i];
        let deadband = match field.deadband {
            Some(d) => d,
            None => DeadbandSpec { kind: DeadbandKind::AnyChange, value: F64 { bits: 0 } },
        };
        out.push(FieldDeadband { signal_id: field.signal_id(io.input_assembly), deadband });
        i = i + 1;
    }
    out
}

/// The deadband of a field; of two entries the later one counts, and a field without one has none.
pub open spec fn deadband_of(all: Seq<FieldDeadband>, id: Seq<char>) -> DeadbandSpec
    decreases all.len(),
{
    if all.len() == 0 {
        no_deadband()
    } else if all.last().signal_id@ == id {
        all.last().deadband
    } else {
        deadband_of(all.drop_last(), id)
    }
}

/// The deadband of a field; of two entries the later one counts, and a field without one has none.
pub fn field_deadband(all: &Vec<FieldDeadband>, id: &str) -> (r: DeadbandSpec)
    ensures
        r == deadband_of(all@, id@),
{
    let wanted = id.to_owned();
    let mut n: usize = all.len();
    assert(all@.take(n as int) =~= all@);
    while n > 0
        invariant
            n <= all@.len(),
            wanted@ == id@,
            deadband_of(all@, id@) == deadband_of(all@.take(n as int), id@),
        decreases n,
    {
        let ghost s = all@.take(n as int);
        assert(s.drop_last() =~= all@.take(n - 1));
        assert(s.last() == all@[n - 1]);
        if all[n - 1].signal_id == wanted {
            return all[n - 1].deadband;
        }
        n = n - 1;
    }
    DeadbandSpec::default()
}

/// A field that is not good is held back neither by the minimum spacing nor by the deadband.
pub proof fn an_idle_or_bad_field_is_never_held_back(
    st: StateV,
    h: Health,
    r: ReadingV,
    gate: GateV,
    sample_ms: u64,
    moved: Seq<bool>,
)
    requires
        r.quality != Quality::Good,
    ensures
        ({
            let (st2, h2, out) = field_step(st, h, r, gate, sample_ms, moved);
            &&& h2.samples_suppressed == h.samples_suppressed
            &&& st2.reference() == st.reference()
            &&& out is Some || st2.batcher.buffer == st.batcher.buffer.push(r.sample(gate.server_ts))
        }),
{
}

/// Two good samples of a field that both pass are at least the configured spacing apart.
pub proof fn good_samples_are_spaced(
    st: StateV,
    h: Health,
    first: ReadingV,
    second: ReadingV,
    gate1: GateV,
    gate2: GateV,
    sample_ms: u64,
    moved1: Seq<bool>,
    moved2: Seq<bool>,
)
    requires
        first.quality == Quality::Good,
        second.quality == Quality::Good,
        field_step(st, h, first, gate1, sample_ms, moved1).0.last_eligible == Some(gate1.now),
        field_step(
            field_step(st, h, first, gate1, sample_ms, moved1).0,
            field_step(st, h, first, gate1, sample_ms, moved1).1,
            second,
            gate2,
            sample_ms,
            moved2,
        ).0.last_eligible == Some(gate2.now),
        gate1.now != gate2.now,
    ensures
        gate2.now.after(gate1.now) >= sample_ms * 1_000_000,
{
}

// ---- what one field comes to ----

/// A field is counted under its quality, an idle one under none. Of those that pass and are not too
/// soon, a good one on change counts as changed; the others count as suppressed. Nothing else is counted.
pub proof fn a_field_is_counted_once(
    st: StateV,
    h: Health,
    r: ReadingV,
    gate: GateV,
    sample_ms: u64,
    moved: Seq<bool>,
)
    ensures
        ({
            let h2 = field_step(st, h, r, gate, sample_ms, moved).1;
            let soon = r.quality == Quality::Good && st.last_eligible is Some && gate.now.after(
                st.last_eligible->0,
            ) < sample_ms * 1_000_000;
            let pass = !soon && passes(st.reference(), r.value, r.quality, gate.mode, moved);
            h2 == (Health {
                samples_good: if r.quality == Quality::Good {
                    bumped(h.samples_good, 1)
                } else {
                    h.samples_good
                },
                samples_bad: if r.quality == Quality::Bad {
                    bumped(h.samples_bad, 1)
                } else {
                    h.samples_bad
                },
                samples_changed: if pass && r.quality == Quality::Good && gate.mode
                    == PublishMode::OnChange {
                    bumped(h.samples_changed, 1)
                } else {
                    h.samples_changed
                },
                samples_suppressed: if pass {
                    h.samples_suppressed
                } else {
                    bumped(h.samples_suppressed, 1)
                },
                ..h
            })
        }),
{
}

/// A field that passes and is not too soon after the last one that did is published at once, or waits
/// behind what waits already, as one sample with the value and quality that were read and the time of the
/// frame; a good one is in flight from then on, and the next one is spaced from it. Any other leaves
/// nothing but that it was read.
pub proof fn a_field_goes_out_or_waits_as_it_was_read(
    st: StateV,
    h: Health,
    r: ReadingV,
    gate: GateV,
    sample_ms: u64,
    moved: Seq<bool>,
)
    ensures
        ({
            let (st2, h2, out) = field_step(st, h, r, gate, sample_ms, moved);
            let soon = r.quality == Quality::Good && st.last_eligible is Some && gate.now.after(
                st.last_eligible->0,
            ) < sample_ms * 1_000_000;
            let pass = !soon && passes(st.reference(), r.value, r.quality, gate.mode, moved);
            let sample = SampleV {
                value: r.value,
                quality: r.quality,
                quality_raw: r.quality_raw,
                server_ts: Some(gate.server_ts),
            };
            &&& out == (if pass && gate.batch_ms == 0 {
                Some(PublishV { signal_id: r.signal_id, samples: seq![sample] })
            } else {
                None::<PublishV>
            })
            &&& st2.batcher.buffer == (if pass && gate.batch_ms > 0 {
                st.batcher.buffer.push(sample)
            } else {
                st.batcher.buffer
            })
            &&& st2.batcher.window_open == (if pass && gate.batch_ms > 0 && st.batcher.window_open is None {
                Some(gate.now)
            } else {
                st.batcher.window_open
            })
            &&& st2.pending == (if pass && r.quality == Quality::Good {
                Some(r.value)
            } else {
                st.pending
            })
            &&& st2.baseline == st.baseline
            &&& st2.last_good == (if r.quality == Quality::Good {
                Some(gate.now)
            } else {
                st.last_good
            })
            &&& st2.last_eligible == (if pass {
                Some(gate.now)
            } else {
                st.last_eligible
            })
        }),
{
}

// ---- what the fields of a frame come to ----

/// No two fields have one id.
pub open spec fn distinct_fields(readings: Seq<Reading>) -> bool {
    forall|i: int, j: int|
        0 <= i < j < readings.len() ==> (#[trigger] readings[i]).signal_id@ != (
        #[trigger] readings[j]).signal_id@
}

proof fn lemma_fields_apart(
    st: StateV,
    h: Health,
    g: Health,
    r: ReadingV,
    gate: GateV,
    sample_ms: u64,
    moved: Seq<bool>,
)
    ensures
        field_step(st, h, r, gate, sample_ms, moved).0 == field_step(st, g, r, gate, sample_ms, moved).0,
        field_step(st, h, r, gate, sample_ms, moved).2 == field_step(st, g, r, gate, sample_ms, moved).2,
{
}

/// The fields of a frame take their steps from the states they had, and other fields keep theirs; what
/// is handed out are the updates of those steps, in order.
proof fn lemma_frame(
    start: GroupV,
    n: nat,
    readings: Seq<Reading>,
    gate: GateV,
    sample_ms: u64,
    moved: Seq<Vec<bool>>,
) -> (places: Seq<int>)
    requires
        distinct_fields(readings),
        n <= readings.len(),
    ensures
        ({
            let end = frame_run(start, n, readings, gate, sample_ms, moved);
            &&& forall|i: int|
                0 <= i < n ==> (end.states)((#[trigger] readings[i]).signal_id@) == field_step(
                    (start.states)(readings[i].signal_id@),
                    start.health,
                    readings[i]@,
                    gate,
                    sample_ms,
                    moved[i]@,
                ).0
            &&& forall|k: Seq<char>|
                (forall|i: int| 0 <= i < n ==> (#[trigger] readings[i]).signal_id@ != k) ==> (
                #[trigger] (end.states)(k)) == (start.states)(k)
            &&& end.out.len() == start.out.len() + places.len()
            &&& forall|i: int, j: int| 0 <= i < j < places.len() ==> places[i] < places[j]
            &&& forall|p: int| #[trigger]
                places.contains(p) <==> 0 <= p < n && field_step(
                    (start.states)(readings[p].signal_id@),
                    start.health,
                    readings[p]@,
                    gate,
                    sample_ms,
                    moved[p]@,
                ).2 is Some
            &&& forall|j: int|
                0 <= j < places.len() ==> Some(#[trigger] end.out[start.out.len() + j]) == field_step(
                    (start.states)(readings[places[j]].signal_id@),
                    start.health,
                    readings[places[j]]@,
                    gate,
                    sample_ms,
                    moved[places[j]]@,
                ).2
        }),
    decreases n,
{
    if n == 0 {
        Seq::empty()
    } else {
        let m = (n - 1) as nat;
        let prev = lemma_frame(start, m, readings, gate, sample_ms, moved);
        let mid = frame_run(start, m, readings, gate, sample_ms, moved);
        let end = frame_run(start, n, readings, gate, sample_ms, moved);
        let id = readings[n - 1].signal_id@;
        assert forall|i: int| 0 <= i < m implies (#[trigger] readings[i]).signal_id@ != id by {
            assert(readings[i].signal_id@ != readings[n - 1].signal_id@);
        }
        assert((mid.states)(id) == (start.states)(id));
        assert forall|i: int| 0 <= i < prev.len() implies 0 <= #[trigger] prev[i] < m by {
            assert(prev.contains(prev[i]));
        }
        lemma_fields_apart(
            (start.states)(id),
            mid.health,
            start.health,
            readings[n - 1]@,
            gate,
            sample_ms,
            moved[n - 1]@,
        );
        let out = field_step(
            (start.states)(id),
            start.health,
            readings[n - 1]@,
            gate,
            sample_ms,
            moved[n - 1]@,
        ).2;
        if out is Some {
            let next = prev.push(n - 1);
            assert forall|p: int| #[trigger] next.contains(p) <==> prev.contains(p) || p == n - 1 by {
                lemma_int_push(prev, n - 1, p);
            }
            assert(end.out == mid.out.push(out->0));
            assert forall|j: int| 0 <= j < next.len() implies Some(
                #[trigger] end.out[start.out.len() + j],
            ) == field_step(
                (start.states)(readings[next[j]].signal_id@),
                start.health,
                readings[next[j]]@,
                gate,
                sample_ms,
                moved[next[j]]@,
            ).2 by {
                if j < prev.len() {
                    assert(end.out[start.out.len() + j] == mid.out[start.out.len() + j]);
                }
            }
            next
        } else {
            prev
        }
    }
}

/// Without a window, every field of a frame that passes by its own verdict and is not too soon is
/// published, and no other: one update each, in the order of the frame, with the field's id and the one
/// sample that was read of it. The places of those fields are returned.
pub proof fn every_field_that_passes_is_published(
    before: Engine,
    after: Engine,
    readings: Seq<Reading>,
    gate: GateV,
    sample_ms: u64,
    moved: Seq<Vec<bool>>,
    h0: Health,
    h1: Health,
    out: Seq<PublishV>,
) -> (places: Seq<int>)
    requires
        distinct_fields(readings),
        gate.batch_ms == 0,
        gated(
            before,
            after,
            frame_run(start_of(before, h0), readings.len(), readings, gate, sample_ms, moved),
            h1,
            out,
        ),
    ensures
        out.len() == places.len(),
        forall|i: int, j: int| 0 <= i < j < places.len() ==> places[i] < places[j],
        forall|p: int| #[trigger]
            places.contains(p) <==> 0 <= p < readings.len() && ({
                let st = before.signal(readings[p].signal_id@);
                &&& passes(
                    st.reference(),
                    readings[p].value@,
                    readings[p].quality,
                    gate.mode,
                    moved[p]@,
                )
                &&& readings[p].quality != Quality::Good || st.last_eligible is None || gate.now.after(
                    st.last_eligible->0,
                ) >= sample_ms * 1_000_000
            }),
        forall|j: int|
            0 <= j < places.len() ==> (#[trigger] out[j]) == ({
                let r = readings[places[j]]@;
                PublishV {
                    signal_id: r.signal_id,
                    samples: seq![
                        SampleV {
                            value: r.value,
                            quality: r.quality,
                            quality_raw: r.quality_raw,
                            server_ts: Some(gate.server_ts),
                        },
                    ],
                }
            }),
{
    let start = start_of(before, h0);
    let places = lemma_frame(start, readings.len(), readings, gate, sample_ms, moved);
    let end = frame_run(start, readings.len(), readings, gate, sample_ms, moved);
    assert forall|j: int| 0 <= j < places.len() implies (#[trigger] out[j]) == ({
        let r = readings[places[j]]@;
        PublishV {
            signal_id: r.signal_id,
            samples: seq![
                SampleV {
                    value: r.value,
                    quality: r.quality,
                    quality_raw: r.quality_raw,
                    server_ts: Some(gate.server_ts),
                },
            ],
        }
    }) by {
        assert(places.contains(places[j]));
        assert(out[j] == end.out[start.out.len() + j]);
    }
    places
}

/// With a window nothing goes out: every field of a frame that passes by its own verdict and is not too
/// soon has its sample behind what its window held, and every other window is as it was.
pub proof fn every_field_that_passes_waits_in_its_window(
    before: Engine,
    after: Engine,
    readings: Seq<Reading>,
    gate: GateV,
    sample_ms: u64,
    moved: Seq<Vec<bool>>,
    h0: Health,
    h1: Health,
    out: Seq<PublishV>,
    p: int,
)
    requires
        distinct_fields(readings),
        gate.batch_ms > 0,
        gated(
            before,
            after,
            frame_run(start_of(before, h0), readings.len(), readings, gate, sample_ms, moved),
            h1,
            out,
        ),
        0 <= p < readings.len(),
    ensures
        out.len() == 0,
        ({
            let r = readings[p]@;
            let st = before.signal(r.signal_id);
            after.signal(r.signal_id).batcher.buffer == (if passes(
                st.reference(),
                r.value,
                r.quality,
                gate.mode,
                moved[p]@,
            ) && (r.quality != Quality::Good || st.last_eligible is None || gate.now.after(
                st.last_eligible->0,
            ) >= sample_ms * 1_000_000) {
                st.batcher.buffer.push(
                    SampleV {
                        value: r.value,
                        quality: r.quality,
                        quality_raw: r.quality_raw,
                        server_ts: Some(gate.server_ts),
                    },
                )
            } else {
                st.batcher.buffer
            })
        }),
{
    let places = lemma_frame(start_of(before, h0), readings.len(), readings, gate, sample_ms, moved);
    if places.len() > 0 {
        assert(places.contains(places[0]));
    }
    let end = frame_run(start_of(before, h0), readings.len(), readings, gate, sample_ms, moved);
    assert((end.states)(readings[p].signal_id@) == after.signal(readings[p].signal_id@));
}

/// A field is gated by its own state, its own reading and its own verdict, and by nothing else: where
/// these agree for a field in two frames, whatever the other fields of the frames are and did, the field
/// comes to the same state in both. A field that is not in a frame stays as it was.
pub proof fn a_field_is_gated_by_its_own_reading(
    before: Engine,
    after: Engine,
    readings: Seq<Reading>,
    moved: Seq<Vec<bool>>,
    h0: Health,
    h1: Health,
    out: Seq<PublishV>,
    before2: Engine,
    after2: Engine,
    readings2: Seq<Reading>,
    moved2: Seq<Vec<bool>>,
    g0: Health,
    g1: Health,
    out2: Seq<PublishV>,
    gate: GateV,
    sample_ms: u64,
    p: int,
    q: int,
    other: Seq<char>,
)
    requires
        distinct_fields(readings),
        distinct_fields(readings2),
        gated(
            before,
            after,
            frame_run(start_of(before, h0), readings.len(), readings, gate, sample_ms, moved),
            h1,
            out,
        ),
        gated(
            before2,
            after2,
            frame_run(start_of(before2, g0), readings2.len(), readings2, gate, sample_ms, moved2),
            g1,
            out2,
        ),
        0 <= p < readings.len(),
        0 <= q < readings2.len(),
        readings[p]@ == readings2[q]@,
        before.signal(readings[p].signal_id@) == before2.signal(readings[p].signal_id@),
        moved[p]@ == moved2[q]@,
    ensures
        after.signal(readings[p].signal_id@) == after2.signal(readings[p].signal_id@),
        (forall|i: int| 0 <= i < readings.len() ==> (#[trigger] readings[i]).signal_id@ != other)
            ==> after.signal(other) == before.signal(other),
{
    let s1 = start_of(before, h0);
    let s2 = start_of(before2, g0);
    lemma_frame(s1, readings.len(), readings, gate, sample_ms, moved);
    lemma_frame(s2, readings2.len(), readings2, gate, sample_ms, moved2);
    let e1 = frame_run(s1, readings.len(), readings, gate, sample_ms, moved);
    let e2 = frame_run(s2, readings2.len(), readings2, gate, sample_ms, moved2);
    let id = readings[p]@.signal_id;
    assert((e1.states)(readings[p].signal_id@) == after.signal(id));
    assert((e2.states)(readings2[q].signal_id@) == after2.signal(id));
    lemma_fields_apart(before.signal(id), h0, g0, readings[p]@, gate, sample_ms, moved[p]@);
    assert(after.signal(other) == (e1.states)(other));
}

/// A good number whose own verdict says that it moved, and that is not too soon, is published or waits in
/// its window, whatever the other fields of the frame do.
pub proof fn a_field_that_moved_is_not_held_back(
    before: Engine,
    after: Engine,
    readings: Seq<Reading>,
    gate: GateV,
    sample_ms: u64,
    moved: Seq<Vec<bool>>,
    h0: Health,
    h1: Health,
    out: Seq<PublishV>,
    p: int,
)
    requires
        distinct_fields(readings),
        gated(
            before,
            after,
            frame_run(start_of(before, h0), readings.len(), readings, gate, sample_ms, moved),
            h1,
            out,
        ),
        0 <= p < readings.len(),
        readings[p].quality == Quality::Good,
        readings[p].value@ is Int || readings[p].value@ is Float,
        moved[p]@.len() > 0 && moved[p]@[0],
        before.signal(readings[p].signal_id@).last_eligible matches Some(t) ==> gate.now.after(t)
            >= sample_ms * 1_000_000,
    ensures
        after.signal(readings[p].signal_id@).pending == Some(readings[p].value@),
        gate.batch_ms == 0 ==> exists|j: int|
            0 <= j < out.len() && (#[trigger] out[j]).signal_id == readings[p].signal_id@
                && out[j].samples.len() == 1 && out[j].samples[0].value == readings[p].value@,
        gate.batch_ms > 0 ==> ({
            let held = after.signal(readings[p].signal_id@).batcher.buffer;
            held.len() == before.signal(readings[p].signal_id@).batcher.buffer.len() + 1 && held.last().value
                == readings[p].value@
        }),
{
    let start = start_of(before, h0);
    let places = lemma_frame(start, readings.len(), readings, gate, sample_ms, moved);
    let end = frame_run(start, readings.len(), readings, gate, sample_ms, moved);
    assert((end.states)(readings[p].signal_id@) == after.signal(readings[p].signal_id@));
    if gate.batch_ms == 0 {
        assert(places.contains(p));
        let j = choose|j: int| 0 <= j < places.len() && places[j] == p;
        assert(out[j] == end.out[start.out.len() + j]);
        assert(out[j].signal_id == readings[p].signal_id@);
    }
}

/// What the first fields of a frame hand out is handed out, however many follow, whether or not two of
/// them have one id.
pub proof fn no_field_handed_out_is_taken_back(
    start: GroupV,
    m: nat,
    n: nat,
    readings: Seq<Reading>,
    gate: GateV,
    sample_ms: u64,
    moved: Seq<Vec<bool>>,
)
    requires
        m <= n,
    ensures
        frame_run(start, m, readings, gate, sample_ms, moved).out.is_prefix_of(
            frame_run(start, n, readings, gate, sample_ms, moved).out,
        ),
    decreases n,
{
    if m < n {
        no_field_handed_out_is_taken_back(start, m, (n - 1) as nat, readings, gate, sample_ms, moved);
        let a = frame_run(start, m, readings, gate, sample_ms, moved).out;
        let b = frame_run(start, (n - 1) as nat, readings, gate, sample_ms, moved).out;
        let c = frame_run(start, n, readings, gate, sample_ms, moved).out;
        assert(c.len() >= b.len() && c.subrange(0, a.len() as int) =~= b.subrange(0, a.len() as int));
    }
}

/// The deadband of a field is the one listed last under its id; a field that is not listed has none, and
/// one that is configured without one has none, either.
pub proof fn the_last_deadband_of_a_field_counts(all: Seq<FieldDeadband>, id: Seq<char>, field: IoFieldSpec)
    ensures
        (exists|i: int|
            {
                &&& 0 <= i < all.len()
                &&& (#[trigger] all[i]).signal_id@ == id
                &&& all[i].deadband == deadband_of(all, id)
                &&& forall|j: int| i < j < all.len() ==> (#[trigger] all[j]).signal_id@ != id
            }) || ({
            &&& forall|j: int| 0 <= j < all.len() ==> (#[trigger] all[j]).signal_id@ != id
            &&& deadband_of(all, id).kind == DeadbandKind::AnyChange
        }),
        field.deadband matches Some(d) ==> configured_deadband(field) == d,
        field.deadband is None ==> configured_deadband(field).kind == DeadbandKind::AnyChange,
    decreases all.len(),
{
    if all.len() > 0 {
        let n = all.len() - 1;
        if all.last().signal_id@ == id {
            assert(all[n].signal_id@ == id);
        } else {
            let init = all.drop_last();
            the_last_deadband_of_a_field_counts(init, id, field);
            if exists|i: int|
                {
                    &&& 0 <= i < init.len()
                    &&& (#[trigger] init[i]).signal_id@ == id
                    &&& init[i].deadband == deadband_of(init, id)
                    &&& forall|j: int| i < j < init.len() ==> (#[trigger] init[j]).signal_id@ != id
                } {
                let i = choose|i: int|
                    {
                        &&& 0 <= i < init.len()
                        &&& (#[trigger] init[i]).signal_id@ == id
                        &&& init[i].deadband == deadband_of(init, id)
                        &&& forall|j: int| i < j < init.len() ==> (#[trigger] init[j]).signal_id@ != id
                    };
                assert(all[i] == init[i]);
                assert forall|j: int| i < j < all.len() implies (#[trigger] all[j]).signal_id@ != id by {
                    if j < n {
                        assert(init[j] == all[j]);
                    }
                }
            } else {
                assert forall|j: int| 0 <= j < all.len() implies (#[trigger] all[j]).signal_id@ != id by {
                    if j < n {
                        assert(init[j] == all[j]);
                    }
                }
            }
        }
    }
}

} // verus!
