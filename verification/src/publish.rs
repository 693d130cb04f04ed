//! The publish gate, the batch windows and the running state of each signal.
//!
//! The poll engine and the push engine feed the same gate: a sample that is not good always passes,
//! `always` passes everything, `onChange` passes what moved past the deadband from the last published
//! value. A value that passed is *pending* until its publish is confirmed; only then does it become
//! the baseline later values are compared with.

use vstd::prelude::*;

use crate::clock::{Duration, Instant};
use crate::config::{DeadbandKind, PublishMode};
use crate::device::{text_view, Quality};
use crate::json::{lemma_meaning, values, Json, JsonV, Object};
use crate::text::owned;

verus! {

/// One published observation of a signal.
#[derive(Debug)]
pub struct Sample {
    pub value: Json,
    pub quality: Quality,
    pub quality_raw: Option<String>,
    /// When the value was captured.
    pub server_ts: Option<String>,
}

/// A sample, with its value and texts as what they mean.
pub struct SampleV {
    pub value: JsonV,
    pub quality: Quality,
    pub quality_raw: Option<Seq<char>>,
    pub server_ts: Option<Seq<char>>,
}

impl View for Sample {
    type V = SampleV;

    open spec fn view(&self) -> SampleV {
        SampleV {
            value: self.value@,
            quality: self.quality,
            quality_raw: text_view(self.quality_raw),
            server_ts: text_view(self.server_ts),
        }
    }
}

/// The samples of a list, in order.
pub open spec fn samples(s: Seq<Sample>) -> Seq<SampleV> {
    Seq::new(s.len(), |i: int| s[i]@)
}

/// A sample made of a reading's parts.
pub fn sample_of(
    value: Json,
    quality: Quality,
    quality_raw: Option<String>,
    server_ts: Option<String>,
) -> (s: Sample)
    ensures
        s@ == (SampleV {
            value: value@,
            quality,
            quality_raw: text_view(quality_raw),
            server_ts: text_view(server_ts),
        }),
{
    Sample { value, quality, quality_raw, server_ts }
}

// ---- the update ----

/// One update of a signal, as it is handed over to be published.
#[derive(Debug)]
pub struct SignalUpdate {
    pub signal_id: String,
    pub signal_name: String,
    pub signal_address: Json,
    pub device: Json,
    /// What the channel is named after.
    pub signal_path: String,
    pub samples: Vec<Sample>,
}

/// The device of an update.
pub open spec fn device_block(
    adapter: Seq<char>,
    instance: Seq<char>,
    endpoint: Seq<char>,
) -> Map<Seq<char>, JsonV> {
    Map::empty().insert("adapter"@, JsonV::Text(adapter)).insert(
        "instance"@,
        JsonV::Text(instance),
    ).insert("endpoint"@, JsonV::Text(endpoint))
}

/// The update of a signal. Its channel is named after the configured name; the stable id rides only in
/// the body.
pub fn build_update(
    stable_id: &str,
    name: &str,
    address: Json,
    adapter: &str,
    instance: &str,
    endpoint: &str,
    list: Vec<Sample>,
) -> (u: SignalUpdate)
    ensures
        u.signal_id@ == stable_id@,
        u.signal_name@ == name@,
        u.signal_address@ == address@,
        u.device@ == JsonV::Object(device_block(adapter@, instance@, endpoint@)),
        u.signal_path@ == name@,
        u.samples == list,
{
    let mut device = Object::new();
    device.insert("adapter", Json::of_text(adapter));
    device.insert("instance", Json::of_text(instance));
    device.insert("endpoint", Json::of_text(endpoint));
    SignalUpdate {
        signal_id: owned(stable_id),
        signal_name: owned(name),
        signal_address: address,
        device: Json::of_object(device),
        signal_path: owned(name),
        samples: list,
    }
}

// ---- the publish filter ----

pub open spec fn numeric(v: JsonV) -> bool {
    v is Int || v is Float
}

/// How a number compares with the one before it, in floating point.
#[derive(Clone, Copy, Debug, PartialEq, Eq, Structural)]
pub struct Comparison {
    /// The two are not equal.
    pub differs: bool,
    /// Their distance is at least the deadband's value.
    pub reaches_value: bool,
    /// The deadband's percentage of the earlier number is zero.
    pub threshold_is_zero: bool,
    /// Their distance is at least that percentage.
    pub reaches_threshold: bool,
}

/// Whether a number moved past the deadband: any change; a distance of at least the value; or one of at
/// least that percentage of the earlier number, where a percentage of nothing is any change.
pub open spec fn exceeds(kind: DeadbandKind, c: Comparison) -> bool {
    match kind {
        DeadbandKind::AnyChange => c.differs,
        DeadbandKind::Absolute => c.reaches_value,
        DeadbandKind::Percent => if c.threshold_is_zero {
            c.differs
        } else {
            c.reaches_threshold
        },
    }
}

/// Whether a number moved past the deadband.
pub fn scalar_exceeds(kind: DeadbandKind, c: Comparison) -> (r: bool)
    ensures
        r == exceeds(kind, c),
        kind == DeadbandKind::AnyChange ==> r == c.differs,
        kind == DeadbandKind::Absolute ==> r == c.reaches_value,
        kind == DeadbandKind::Percent && c.threshold_is_zero ==> r == c.differs,
        kind == DeadbandKind::Percent && !c.threshold_is_zero ==> r == c.reaches_threshold,
{
    match kind {
        DeadbandKind::AnyChange => c.differs,
        DeadbandKind::Absolute => c.reaches_value,
        DeadbandKind::Percent => if c.threshold_is_zero {
            c.differs
        } else {
            c.reaches_threshold
        },
    }
}

/// Whether an element differs: two numbers by whether they moved past the deadband, anything else by
/// any difference.
pub open spec fn element_differs(old: JsonV, new: JsonV, moved: bool) -> bool {
    if numeric(old) && numeric(new) {
        moved
    } else {
        old != new
    }
}

/// The verdict on element `i`; no verdict is "did not move".
pub open spec fn moved_at(moved: Seq<bool>, i: int) -> bool {
    0 <= i < moved.len() && moved[i]
}

/// Whether a value differs from an earlier one. Arrays differ in length, or in any element.
pub open spec fn differs(old: JsonV, new: JsonV, moved: Seq<bool>) -> bool {
    match (old, new) {
        (JsonV::Array(p), JsonV::Array(n)) => p.len() != n.len() || exists|i: int|
            0 <= i < p.len() && element_differs(#[trigger] p[i], n[i], moved_at(moved, i)),
        _ => element_differs(old, new, moved_at(moved, 0)),
    }
}

/// Whether a sample passes the publish filter against the value before it.
pub open spec fn passes(
    reference: Option<JsonV>,
    value: JsonV,
    quality: Quality,
    mode: PublishMode,
    moved: Seq<bool>,
) -> bool {
    ||| quality != Quality::Good
    ||| mode == PublishMode::Always
    ||| reference is None
    ||| differs(reference->0, value, moved)
}

/// The meaning of an optional value.
pub open spec fn json_view(v: Option<Json>) -> Option<JsonV> {
    match v {
        Some(j) => Some(j@),
        None => None,
    }
}

/// Whether the two elements differ; `moved` is the deadband's verdict on two numbers.
pub fn element_changed(old: &Json, new: &Json, moved: bool) -> (r: bool)
    ensures
        r == element_differs(old@, new@, moved),
{
    proof {
        lemma_meaning(*old);
        lemma_meaning(*new);
    }
    match (old, new) {
        (Json::Number(_), Json::Number(_)) => moved,
        _ => !old.same(new),
    }
}

fn verdict(moved: &Vec<bool>, i: usize) -> (r: bool)
    ensures
        r == moved_at(moved@, i as int),
{
    i < moved.len() && moved[i]
}

/// Whether `new` differs from `old`. `moved` holds the deadband's verdict on each pair of numbers
/// (one verdict for a scalar).
pub fn value_changed(old: &Json, new: &Json, moved: &Vec<bool>) -> (r: bool)
    ensures
        r == differs(old@, new@, moved@),
{
    proof {
        lemma_meaning(*old);
        lemma_meaning(*new);
    }
    match (old, new) {
        (Json::Array(p), Json::Array(n)) => {
            if p.len() != n.len() {
                return true;
            }
            let ghost before = values(p@);
            let ghost after = values(n@);
            let mut i: usize = 0;
            while i < p.len()
                invariant
                    i <= p@.len(),
                    p@.len() == n@.len(),
                    old@ == JsonV::Array(before),
                    new@ == JsonV::Array(after),
                    before == values(p@),
                    after == values(n@),
                    forall|j: int|
                        0 <= j < i ==> !element_differs(
                            #[trigger] before[j],
                            after[j],
                            moved_at(moved@, j),
                        ),
                decreases p@.len() - i,
            {
                if element_changed(&p[i], &n[i], verdict(moved, i)) {
                    assert(element_differs(before[i as int], after[i as int], moved_at(moved@, i as int)));
                    return true;
                }
                i = i + 1;
            }
            false
        },
        _ => element_changed(old, new, verdict(moved, 0)),
    }
}

/// Whether a sample should be published now, compared with `prev`.
pub fn should_publish(
    prev: Option<&Json>,
    value: &Json,
    quality: Quality,
    mode: PublishMode,
    moved: &Vec<bool>,
) -> (r: bool)
    ensures
        r == passes(
            match prev {
                Some(p) => Some(p@),
                None => None,
            },
            value@,
            quality,
            mode,
            moved@,
        ),
{
    if quality != Quality::Good {
        return true;
    }
    if mode == PublishMode::Always {
        return true;
    }
    match prev {
        None => true,
        Some(p) => value_changed(p, value, moved),
    }
}

// ---- batching ----

/// The coalescing window of one signal.
#[derive(Debug)]
pub struct Batcher {
    pub buffer: Vec<Sample>,
    /// When the first buffered sample came.
    pub window_open: Option<Instant>,
}

/// The coalescing window of one signal.
pub struct BatcherV {
    pub buffer: Seq<SampleV>,
    pub window_open: Option<Instant>,
}

impl View for Batcher {
    type V = BatcherV;

    open spec fn view(&self) -> BatcherV {
        BatcherV { buffer: samples(self.buffer@), window_open: self.window_open }
    }
}

impl BatcherV {
    pub open spec fn idle() -> BatcherV {
        BatcherV { buffer: Seq::empty(), window_open: None }
    }

    /// The window after one more buffered sample.
    pub open spec fn with(self, sample: SampleV, now: Instant) -> BatcherV {
        BatcherV {
            buffer: self.buffer.push(sample),
            window_open: match self.window_open {
                Some(t) => Some(t),
                None => Some(now),
            },
        }
    }

    /// The window has something to flush, and `batch_ms` have passed since it opened.
    pub open spec fn due(self, now: Instant, batch_ms: u64) -> bool {
        &&& self.window_open is Some
        &&& self.buffer.len() > 0
        &&& now.after(self.window_open->0) >= batch_ms * 1_000_000
    }
}

impl Batcher {
    /// A window that is not open.
    pub fn new() -> (r: Batcher)
        ensures
            r@ == BatcherV::idle(),
    {
        let buffer: Vec<Sample> = Vec::new();
        let r = Batcher { buffer, window_open: None };
        assert(r@.buffer =~= Seq::<SampleV>::empty());
        r
    }

    /// Add a sample that passed the publish filter. Without a window it is to be published now; otherwise it is
    /// buffered, and opens the window when it is the first.
    pub fn add(&mut self, sample: Sample, now: Instant, batch_ms: u64) -> (r: Option<Vec<Sample>>)
        ensures
            batch_ms == 0 ==> (r matches Some(out) && samples(out@) == seq![sample@]) && final(self)@
                == old(self)@,
            batch_ms > 0 ==> r is None && final(self)@ == old(self)@.with(sample@, now),
    {
        if batch_ms == 0 {
            let mut out: Vec<Sample> = Vec::new();
            out.push(sample);
            assert(samples(out@) =~= seq![sample@]);
            return Some(out);
        }
        if self.window_open.is_none() {
            self.window_open = Some(now);
        }
        self.buffer.push(sample);
        assert(self@.buffer =~= old(self)@.buffer.push(sample@));
        None
    }

    /// Empty the window if it is due.
    pub fn take_due(&mut self, now: Instant, batch_ms: u64) -> (r: Option<Vec<Sample>>)
        ensures
            old(self)@.due(now, batch_ms) ==> (r matches Some(out) && samples(out@)
                == old(self)@.buffer) && final(self)@ == BatcherV::idle(),
            !old(self)@.due(now, batch_ms) ==> r is None && final(self)@ == old(self)@,
    {
        match self.window_open {
            None => None,
            Some(opened) => {
                if self.buffer.len() > 0 && now.since(opened).nanos >= Duration::from_millis(
                    batch_ms,
                ).nanos {
                    let mut out: Vec<Sample> = Vec::new();
                    std::mem::swap(&mut out, &mut self.buffer);
                    self.window_open = None;
                    assert(self@.buffer =~= Seq::<SampleV>::empty());
                    Some(out)
                } else {
                    None
                }
            },
        }
    }

    /// When the open window closes, in nanoseconds on the clock.
    pub fn next_deadline(&self, batch_ms: u64) -> (r: Option<u128>)
        ensures
            match self@.window_open {
                Some(t) => r matches Some(d) && d == t.due(batch_ms as int),
                None => r is None,
            },
    {
        match self.window_open {
            Some(t) => Some(t.due_after_ms(batch_ms)),
            None => None,
        }
    }
}

/// The window after the first `n` of a run of samples, each with when it came.
pub open spec fn filled(list: Seq<(SampleV, Instant)>, n: nat) -> BatcherV
    decreases n,
{
    if n == 0 {
        BatcherV::idle()
    } else {
        filled(list, (n - 1) as nat).with(list[n - 1].0, list[n - 1].1)
    }
}

/// A window hands out every sample it was given, once and in order, and it is due when its first sample is
/// as old as the window is long, however many came after it.
pub proof fn a_window_hands_out_every_sample_once(
    list: Seq<(SampleV, Instant)>,
    n: nat,
    now: Instant,
    batch_ms: u64,
)
    requires
        n <= list.len(),
    ensures
        filled(list, n).buffer == Seq::new(n, |i: int| list[i].0),
        filled(list, n).due(now, batch_ms) <==> n > 0 && now.after(list[0].1) >= batch_ms * 1_000_000,
    decreases n,
{
    if n > 0 {
        a_window_hands_out_every_sample_once(list, (n - 1) as nat, now, batch_ms);
        assert(filled(list, n).buffer =~= Seq::new(n, |i: int| list[i].0));
        lemma_opened_by_the_first(list, n);
    }
}

proof fn lemma_opened_by_the_first(list: Seq<(SampleV, Instant)>, n: nat)
    requires
        0 < n <= list.len(),
    ensures
        filled(list, n).window_open == Some(list[0].1),
    decreases n,
{
    if n > 1 {
        lemma_opened_by_the_first(list, (n - 1) as nat);
    } else {
        assert(filled(list, 0) == BatcherV::idle());
    }
}

// ---- the running state of a signal ----

/// One signal's running publish state.
#[derive(Debug)]
pub struct SignalState {
    /// The last published value.
    pub baseline: Option<Json>,
    /// The last value that passed the publish filter and whose publish is not resolved yet.
    pub pending: Option<Json>,
    /// The last good read.
    pub last_good: Option<Instant>,
    /// When a sample last passed, for the minimum spacing of a pushed field.
    pub last_eligible: Option<Instant>,
    pub batcher: Batcher,
}

/// One signal's running publish state.
pub struct StateV {
    pub baseline: Option<JsonV>,
    pub pending: Option<JsonV>,
    pub last_good: Option<Instant>,
    pub last_eligible: Option<Instant>,
    pub batcher: BatcherV,
}

impl View for SignalState {
    type V = StateV;

    open spec fn view(&self) -> StateV {
        StateV {
            baseline: json_view(self.baseline),
            pending: json_view(self.pending),
            last_good: self.last_good,
            last_eligible: self.last_eligible,
            batcher: self.batcher@,
        }
    }
}

impl StateV {
    /// A signal nothing has been read of.
    pub open spec fn unread() -> StateV {
        StateV {
            baseline: None,
            pending: None,
            last_good: None,
            last_eligible: None,
            batcher: BatcherV::idle(),
        }
    }

    /// What the publish filter compares the next value with: the value in flight, else the published one.
    pub open spec fn reference(self) -> Option<JsonV> {
        match self.pending {
            Some(v) => Some(v),
            None => self.baseline,
        }
    }

    /// The state once the publish of what was pending has resolved.
    pub open spec fn settled(self, published: bool) -> StateV {
        StateV {
            baseline: if published && self.pending is Some {
                self.pending
            } else {
                self.baseline
            },
            pending: None,
            ..self
        }
    }

    /// The state with its open window dropped, and with it the value that was in flight.
    pub open spec fn discarded(self) -> StateV {
        if self.batcher.buffer.len() > 0 {
            StateV { pending: None, batcher: BatcherV::idle(), ..self }
        } else {
            self
        }
    }
}

impl SignalState {
    /// A signal nothing has been read of.
    pub fn new() -> (r: SignalState)
        ensures
            r@ == StateV::unread(),
    {
        SignalState {
            baseline: None,
            pending: None,
            last_good: None,
            last_eligible: None,
            batcher: Batcher::new(),
        }
    }

    /// What the publish filter compares the next value with.
    pub fn reference(&self) -> (r: Option<&Json>)
        ensures
            match r {
                Some(v) => self@.reference() == Some(v@),
                None => self@.reference() is None,
            },
    {
        match &self.pending {
            Some(v) => Some(v),
            None => match &self.baseline {
                Some(v) => Some(v),
                None => None,
            },
        }
    }

    /// Whether a sample passes the publish filter, compared with the value in flight or the published one.
    pub fn gate_passes(
        &self,
        value: &Json,
        quality: Quality,
        mode: PublishMode,
        moved: &Vec<bool>,
    ) -> (r: bool)
        ensures
            r == passes(self@.reference(), value@, quality, mode, moved@),
    {
        should_publish(self.reference(), value, quality, mode, moved)
    }

    /// Promote what was pending when its publish succeeded, drop it when it failed.
    pub fn settle(&mut self, published: bool)
        ensures
            final(self)@ == old(self)@.settled(published),
    {
        let pending = self.pending.take();
        if published {
            match pending {
                Some(v) => {
                    self.baseline = Some(v);
                },
                None => {},
            }
        }
    }

    /// Drop the open window; returns how many samples went with it.
    pub fn discard(&mut self) -> (n: usize)
        ensures
            n == old(self)@.batcher.buffer.len(),
            final(self)@ == old(self)@.discarded(),
    {
        let n: usize = self.batcher.buffer.len();
        if n > 0 {
            self.pending = None;
            self.batcher = Batcher::new();
        }
        n
    }
}

/// Whether a signal is stale: no good read for at least `stale_secs`. A signal never read is counted
/// from `since`.
pub open spec fn stale(last_good: Option<Instant>, since: Instant, now: Instant, stale_secs: u64) -> bool {
    let base = match last_good {
        Some(t) => t,
        None => since,
    };
    now.after(base) / 1_000_000_000 >= stale_secs
}

/// Whether a signal is stale: no good read for at least `stale_secs`. A signal never read is counted
/// from `since`.
pub fn is_stale(
    last_good: Option<Instant>,
    since: Instant,
    now: Instant,
    stale_secs: u64,
) -> (r: bool)
    ensures
        r == stale(last_good, since, now, stale_secs),
        r <==> stale_secs == 0 || now.nanos >= (match last_good {
            Some(t) => t.nanos,
            None => since.nanos,
        }) + stale_secs * 1_000_000_000,
{
    let base = match last_good {
        Some(t) => t,
        None => since,
    };
    now.since(base).nanos / 1_000_000_000 >= stale_secs as u128
}

/// Whether a cycle took longer than its interval.
pub fn cycle_overran(elapsed: Duration, interval: Duration) -> (r: bool)
    ensures
        r == (elapsed.nanos > interval.nanos),
{
    elapsed.nanos > interval.nanos
}

/// A stale signal stays stale until it is read well again; a good read makes it fresh for the whole span.
pub proof fn only_a_good_read_ends_staleness(
    last_good: Option<Instant>,
    since: Instant,
    now: Instant,
    later: Instant,
    read: Instant,
    stale_secs: u64,
)
    requires
        now.nanos <= later.nanos,
    ensures
        stale(last_good, since, now, stale_secs) ==> stale(last_good, since, later, stale_secs),
        later.after(read) < stale_secs * 1_000_000_000 ==> !stale(Some(read), since, later, stale_secs),
{
    assert(now.after(since) / 1_000_000_000 <= later.after(since) / 1_000_000_000);
}

// ---- what the publish filter keeps ----

/// What a deadband means, in numbers. The numbers and the deadband's value are counted in parts of a
/// unit; a percentage of the earlier number is reached when the distance is that share of it. No
/// deadband is any change, an absolute one is a distance, and a percentage is a share of the earlier
/// number, whatever the distance is in itself: only where that share is nothing does any change count.
pub proof fn a_deadband_is_a_distance_or_a_share(
    c: Comparison,
    old: int,
    new: int,
    value: int,
    unit: int,
)
    requires
        unit > 0,
        value >= 0,
        c.differs <==> old != new,
        c.reaches_value <==> vstd::math::abs(new - old) >= value,
        c.threshold_is_zero <==> old == 0 || value == 0,
        c.reaches_threshold <==> vstd::math::abs(new - old) * 100 * unit >= vstd::math::abs(old)
            * value,
    ensures
        exceeds(DeadbandKind::AnyChange, c) <==> old != new,
        exceeds(DeadbandKind::Absolute, c) <==> vstd::math::abs(new - old) >= value,
        old != 0 && value != 0 ==> (exceeds(DeadbandKind::Percent, c) <==> vstd::math::abs(new - old)
            * 100 * unit >= vstd::math::abs(old) * value),
        old == 0 || value == 0 ==> (exceeds(DeadbandKind::Percent, c) <==> old != new),
{
}

/// Each deadband goes by its own side of a comparison: two comparisons that agree on that side get the
/// same verdict, whatever else they say, and two that do not get different ones.
pub proof fn a_deadband_looks_at_its_own_side_only(c: Comparison, d: Comparison)
    ensures
        exceeds(DeadbandKind::AnyChange, c) == exceeds(DeadbandKind::AnyChange, d) <==> c.differs
            == d.differs,
        exceeds(DeadbandKind::Absolute, c) == exceeds(DeadbandKind::Absolute, d) <==> c.reaches_value
            == d.reaches_value,
        !c.threshold_is_zero && !d.threshold_is_zero ==> (exceeds(DeadbandKind::Percent, c) == exceeds(
            DeadbandKind::Percent,
            d,
        ) <==> c.reaches_threshold == d.reaches_threshold),
        c.threshold_is_zero && d.threshold_is_zero ==> (exceeds(DeadbandKind::Percent, c) == exceeds(
            DeadbandKind::Percent,
            d,
        ) <==> c.differs == d.differs),
        !c.threshold_is_zero && c.reaches_threshold ==> exceeds(DeadbandKind::Percent, c),
        !c.threshold_is_zero && !c.reaches_threshold ==> !exceeds(DeadbandKind::Percent, c),
{
}

/// On change, a good number passes exactly when its own verdict says that it moved.
pub proof fn a_number_passes_when_it_moved(old: JsonV, new: JsonV, moved: Seq<bool>)
    requires
        old is Int || old is Float,
        new is Int || new is Float,
    ensures
        passes(Some(old), new, Quality::Good, PublishMode::OnChange, moved) <==> moved.len() > 0
            && moved[0],
{
}

/// On change, a good value that is no number, or follows one that was none, passes exactly when it is
/// another value. (Two arrays are compared element by element.)
pub proof fn a_value_that_is_no_number_passes_when_it_is_another(
    old: JsonV,
    new: JsonV,
    moved: Seq<bool>,
)
    requires
        !((old is Int || old is Float) && (new is Int || new is Float)),
        !(old is Array && new is Array),
    ensures
        passes(Some(old), new, Quality::Good, PublishMode::OnChange, moved) <==> old != new,
{
}

/// On change, a good array of another length passes. One of the same length passes exactly when one of
/// its elements would: a number by its own verdict, anything else by being another value.
pub proof fn an_array_passes_when_an_element_does(p: Seq<JsonV>, n: Seq<JsonV>, moved: Seq<bool>)
    ensures
        p.len() != n.len() ==> passes(
            Some(JsonV::Array(p)),
            JsonV::Array(n),
            Quality::Good,
            PublishMode::OnChange,
            moved,
        ),
        p.len() == n.len() ==> (passes(
            Some(JsonV::Array(p)),
            JsonV::Array(n),
            Quality::Good,
            PublishMode::OnChange,
            moved,
        ) <==> exists|i: int|
            0 <= i < p.len() && (if (p[i] is Int || p[i] is Float) && (n[i] is Int || n[i] is Float) {
                i < moved.len() && moved[i]
            } else {
                #[trigger] p[i] != n[i]
            })),
{
    if p.len() == n.len() {
        assert forall|i: int| 0 <= i < p.len() implies (#[trigger] element_differs(
            p[i],
            n[i],
            moved_at(moved, i),
        ) <==> (if (p[i] is Int || p[i] is Float) && (n[i] is Int || n[i] is Float) {
            i < moved.len() && moved[i]
        } else {
            p[i] != n[i]
        })) by {}
        if differs(JsonV::Array(p), JsonV::Array(n), moved) {
            let i = choose|i: int|
                0 <= i < p.len() && element_differs(#[trigger] p[i], n[i], moved_at(moved, i));
            assert(element_differs(p[i], n[i], moved_at(moved, i)));
        }
        if exists|i: int|
            0 <= i < p.len() && (if (p[i] is Int || p[i] is Float) && (n[i] is Int || n[i] is Float) {
                i < moved.len() && moved[i]
            } else {
                #[trigger] p[i] != n[i]
            }) {
            let i = choose|i: int|
                0 <= i < p.len() && (if (p[i] is Int || p[i] is Float) && (n[i] is Int || n[i] is Float) {
                    i < moved.len() && moved[i]
                } else {
                    #[trigger] p[i] != n[i]
                });
            assert(element_differs(p[i], n[i], moved_at(moved, i)));
        }
    }
}

/// A value that is not good passes, so does the first one, and so does every one with `always`.
pub proof fn what_is_not_compared_passes(
    reference: Option<JsonV>,
    value: JsonV,
    quality: Quality,
    mode: PublishMode,
    moved: Seq<bool>,
)
    requires
        quality != Quality::Good || mode == PublishMode::Always || reference is None,
    ensures
        passes(reference, value, quality, mode, moved),
{
}

/// A signal is stale exactly when its span has passed since its last good read, or, for one that was
/// never read, since the count began.
pub proof fn a_signal_is_stale_once_its_span_has_passed(
    last_good: Option<Instant>,
    since: Instant,
    now: Instant,
    stale_secs: u64,
)
    requires
        stale_secs > 0,
    ensures
        last_good matches Some(t) ==> (stale(last_good, since, now, stale_secs) <==> now.nanos
            >= t.nanos + stale_secs * 1_000_000_000),
        last_good is None ==> (stale(last_good, since, now, stale_secs) <==> now.nanos >= since.nanos
            + stale_secs * 1_000_000_000),
{
}

/// What is compared with is the value in flight, else the published one. A confirmed publish makes the
/// value in flight the published one, a failed one forgets it, and neither touches anything else.
pub proof fn a_settled_publish_promotes_or_forgets(st: StateV, published: bool)
    ensures
        st.pending is Some ==> st.reference() == st.pending,
        st.pending is None ==> st.reference() == st.baseline,
        st.settled(published).pending is None,
        published && st.pending is Some ==> st.settled(published).baseline == st.pending,
        !published || st.pending is None ==> st.settled(published).baseline == st.baseline,
        st.settled(published).last_good == st.last_good,
        st.settled(published).last_eligible == st.last_eligible,
        st.settled(published).batcher == st.batcher,
{
}

/// A dropped window takes the value in flight with it, and leaves the published one and the times; a
/// window with nothing in it takes nothing.
pub proof fn a_dropped_window_takes_what_was_in_flight(st: StateV)
    ensures
        st.batcher.buffer.len() > 0 ==> st.discarded() == (StateV {
            baseline: st.baseline,
            pending: None,
            last_good: st.last_good,
            last_eligible: st.last_eligible,
            batcher: BatcherV { buffer: Seq::empty(), window_open: None },
        }),
        st.batcher.buffer.len() == 0 ==> st.discarded() == st,
        StateV::unread() == (StateV {
            baseline: None,
            pending: None,
            last_good: None,
            last_eligible: None,
            batcher: BatcherV { buffer: Seq::empty(), window_open: None },
        }),
{
}

/// A window takes a sample behind those it holds, and opens with the first one only.
pub proof fn a_window_opens_with_its_first_sample(b: BatcherV, sample: SampleV, now: Instant)
    ensures
        b.with(sample, now).buffer == b.buffer.push(sample),
        b.window_open is None ==> b.with(sample, now).window_open == Some(now),
        b.window_open is Some ==> b.with(sample, now).window_open == b.window_open,
{
}

/// An update says of its device which adapter reads it, which instance it is and where it is.
pub proof fn an_update_names_its_device(adapter: Seq<char>, instance: Seq<char>, endpoint: Seq<char>)
    ensures
        device_block(adapter, instance, endpoint)["adapter"@] == JsonV::Text(adapter),
        device_block(adapter, instance, endpoint)["instance"@] == JsonV::Text(instance),
        device_block(adapter, instance, endpoint)["endpoint"@] == JsonV::Text(endpoint),
{
    reveal_strlit("adapter");
    reveal_strlit("instance");
    reveal_strlit("endpoint");
    assert("adapter"@.len() == 7 && "instance"@.len() == 8 && "endpoint"@.len() == 8);
    assert("instance"@[0] != "endpoint"@[0]);
}

} // verus!
