//! The in-process simulator: a fixed set of tags with plausible values, and a class-1 producer with a
//! moving frame, so that a configuration runs without a device. The floating-point wave its values follow
//! is handed in.

use vstd::prelude::*;

use crate::clock::Instant;
use crate::config::{EipType, IoConfig, IoFieldSpec, SignalSpec};
use crate::device::{
    copy_readings, readings, text_view, DeviceError, DeviceIdentity, InputSnapshot, IoUpdate, Quality,
    Reading,
};
use crate::eip::types::{
    decode_value, decodes, encode_write, writes, CipValue, DecodeError, Decoded, DeviceNumber,
    WriteError,
};
use crate::ieee::F64;
use crate::json::{lemma_meaning, values, Json, JsonV, Number, Object};
use crate::text::{
    a_number_is_read_back, append_decimal, decimal_nat, decimal_number, join3, owned, read_decimal,
};

verus! {

// ---- the nameplate ----

/// Whether a nameplate is the simulator's: the vendor nobody has, placeholders that read as such, and a
/// name that says what it is.
pub open spec fn is_simulator(id: DeviceIdentity) -> bool {
    &&& id.vendor_id == 0
    &&& id.vendor_name is None
    &&& id.device_type == 0
    &&& text_view(id.device_type_name) == Some("Generic Device"@)
    &&& id.product_code == 0
    &&& id.revision_major == 0
    &&& id.revision_minor == 0
    &&& id.serial_number == 0
    &&& id.product_name@ == "EdgeCommons in-process simulator (not a device)"@
}

/// The simulator's nameplate.
pub fn sim_identity() -> (r: DeviceIdentity)
    ensures
        is_simulator(r),
{
    DeviceIdentity {
        vendor_id: 0,
        vendor_name: None,
        device_type: 0,
        device_type_name: Some(owned("Generic Device")),
        product_code: 0,
        revision_major: 0,
        revision_minor: 0,
        serial_number: 0,
        product_name: owned("EdgeCommons in-process simulator (not a device)"),
    }
}

// ---- the tags ----

/// A tag as a browse lists it.
#[derive(Clone, Debug)]
pub struct BrowsedTag {
    pub name: String,
    pub tag_type: String,
    /// How many dimensions the tag has, if it is an array.
    pub array_dim: Option<u32>,
    pub instance_id: u32,
}

/// A tag as a browse lists it.
pub struct TagV {
    pub name: Seq<char>,
    pub tag_type: Seq<char>,
    pub array_dim: Option<u32>,
    pub instance_id: u32,
}

impl View for BrowsedTag {
    type V = TagV;

    open spec fn view(&self) -> TagV {
        TagV {
            name: self.name@,
            tag_type: self.tag_type@,
            array_dim: self.array_dim,
            instance_id: self.instance_id,
        }
    }
}

/// The tags of a list.
pub open spec fn tag_views(s: Seq<BrowsedTag>) -> Seq<TagV> {
    Seq::new(s.len(), |i: int| s[i]@)
}

/// One tag of the simulated layout.
pub open spec fn tag(
    name: Seq<char>,
    tag_type: Seq<char>,
    array_dim: Option<u32>,
    instance_id: u32,
) -> TagV {
    TagV { name, tag_type, array_dim, instance_id }
}

/// The simulated layout, each tag under its own instance, counted from one.
pub open spec fn layout() -> Seq<TagV> {
    seq![
        tag("LINE_SPEED"@, "REAL"@, None, 1),
        tag("FILL_TEMP"@, "REAL"@, None, 2),
        tag("TANK_LEVEL"@, "REAL"@, None, 3),
        tag("PRODUCT_COUNT"@, "DINT"@, None, 4),
        tag("FILL_SETPOINT"@, "REAL"@, None, 5),
        tag("ZONE_TEMPS"@, "REAL"@, Some(1), 6),
        tag("MOTOR_RUN"@, "DINT"@, None, 7),
        tag("RECIPE"@, "SSTRING"@, None, 8),
    ]
}

fn make(name: &str, tag_type: &str, array_dim: Option<u32>, instance_id: u32) -> (r: BrowsedTag)
    ensures
        r@ == tag(name@, tag_type@, array_dim, instance_id),
{
    BrowsedTag { name: owned(name), tag_type: owned(tag_type), array_dim, instance_id }
}

/// The simulated layout.
pub fn sim_tags() -> (r: Vec<BrowsedTag>)
    ensures
        tag_views(r@) == layout(),
{
    let mut out: Vec<BrowsedTag> = Vec::new();
    out.push(make("LINE_SPEED", "REAL", None, 1));
    out.push(make("FILL_TEMP", "REAL", None, 2));
    out.push(make("TANK_LEVEL", "REAL", None, 3));
    out.push(make("PRODUCT_COUNT", "DINT", None, 4));
    out.push(make("FILL_SETPOINT", "REAL", None, 5));
    out.push(make("ZONE_TEMPS", "REAL", Some(1), 6));
    out.push(make("MOTOR_RUN", "DINT", None, 7));
    out.push(make("RECIPE", "SSTRING", None, 8));
    assert(tag_views(out@) =~= layout());
    out
}

/// Whether the layout has a tag.
pub open spec fn in_layout(path: Seq<char>) -> bool {
    exists|i: int| 0 <= i < layout().len() && (#[trigger] layout()[i]).name == path
}

// ---- browsing ----

/// One page of a browse.
#[derive(Debug)]
pub struct BrowsePage {
    pub tags: Vec<BrowsedTag>,
    /// Where the next page starts; none on the last one.
    pub next_cursor: Option<String>,
}

/// How many tags come before the instance a page starts at.
pub open spec fn page_start(start: nat) -> int {
    if start == 0 {
        0
    } else if start > layout().len() {
        layout().len() as int
    } else {
        start - 1
    }
}

/// Where a page ends: after `max` tags, but at least one, or with the layout.
pub open spec fn page_end(start: nat, max: usize) -> int {
    let limit = if max == 0 {
        1
    } else {
        max as int
    };
    if page_start(start) + limit >= layout().len() {
        layout().len() as int
    } else {
        page_start(start) + limit
    }
}

/// The instance a walk starts at: the cursor, or the bottom without one.
pub open spec fn cursor_number(cursor: Option<Seq<char>>) -> Option<nat> {
    match cursor {
        Some(c) => decimal_number(c),
        None => Some(0),
    }
}

/// The instance the page after one starts at.
pub open spec fn resumes_at(start: nat, max: usize) -> Option<nat> {
    if page_end(start, max) < layout().len() {
        Some((page_end(start, max) + 1) as nat)
    } else {
        None
    }
}

/// Where a walk resumes.
pub fn parse_browse_cursor(cursor: &Option<String>) -> (r: Result<u32, DeviceError>)
    ensures
        match r {
            Ok(n) => cursor_number(text_view(*cursor)) == Some(n as nat),
            Err(e) => {
                &&& cursor_number(text_view(*cursor)) is None
                &&& e is Permanent
                &&& e.text() == "invalid browse cursor `"@ + text_view(*cursor)->0 + "`"@
            },
        },
{
    match cursor {
        None => Ok(0),
        Some(c) => match read_decimal(c.as_str()) {
            Some(n) => Ok(n),
            None => Err(
                DeviceError::Permanent(join3("invalid browse cursor `", c.as_str(), "`")),
            ),
        },
    }
}

/// One page of the layout: the tags from the cursor on, `max` of them at most.
pub fn browse(cursor: &Option<String>, max: usize) -> (r: Result<BrowsePage, DeviceError>)
    ensures
        match r {
            Ok(page) => cursor_number(text_view(*cursor)) matches Some(start) && {
                &&& tag_views(page.tags@) == layout().subrange(
                    page_start(start),
                    page_end(start, max),
                )
                &&& text_view(page.next_cursor) == (match resumes_at(start, max) {
                    Some(n) => Some(decimal_nat(n)),
                    None => None,
                })
            },
            Err(e) => {
                &&& cursor_number(text_view(*cursor)) is None
                &&& e is Permanent
                &&& e.text() == "invalid browse cursor `"@ + text_view(*cursor)->0 + "`"@
            },
        },
{
    let start: u32 = match parse_browse_cursor(cursor) {
        Ok(n) => n,
        Err(e) => {
            return Err(e);
        },
    };
    let limit: usize = if max == 0 {
        1
    } else {
        max
    };
    let mut all = sim_tags();
    let ghost whole = layout();
    assert(all@.len() == 8) by {
        assert(tag_views(all@).len() == all@.len());
    }
    let from: usize = if start == 0 {
        0
    } else if start > 8 {
        8
    } else {
        (start - 1) as usize
    };
    let to: usize = if limit >= 8 - from {
        8
    } else {
        from + limit
    };
    let mut tags: Vec<BrowsedTag> = Vec::new();
    let mut i: usize = from;
    assert(tag_views(tags@) =~= whole.subrange(from as int, from as int));
    while i < to
        invariant
            from <= i <= to,
            to <= 8,
            whole == layout(),
            tag_views(all@) == whole,
            all@.len() == 8,
            tag_views(tags@) == whole.subrange(from as int, i as int),
        decreases to - i,
    {
        let ghost had = tags@;
        let t = make(
            all[i].name.as_str(),
            all[i].tag_type.as_str(),
            all[i].array_dim,
            all[i].instance_id,
        );
        assert(tag_views(all@)[i as int] == all@[i as int]@);
        tags.push(t);
        assert(tag_views(tags@) =~= tag_views(had).push(t@));
        assert(whole.subrange(from as int, i + 1) =~= whole.subrange(from as int, i as int).push(
            whole[i as int],
        ));
        i = i + 1;
    }
    let next_cursor = if to < 8 {
        let mut c = owned("");
        proof {
            reveal_strlit("");
        }
        append_decimal(&mut c, (to + 1) as u128);
        assert(c@ =~= decimal_nat((to + 1) as nat));
        Some(c)
    } else {
        None
    };
    Ok(BrowsePage { tags, next_cursor })
}

/// What a walk lists from an instance on, page after page, each resuming where the last one said.
pub open spec fn walk(start: nat, max: usize, pages: nat) -> Seq<TagV>
    decreases pages,
{
    if pages == 0 {
        Seq::empty()
    } else {
        let page = layout().subrange(page_start(start), page_end(start, max));
        match resumes_at(start, max) {
            Some(n) => page + walk(n, max, (pages - 1) as nat),
            None => page,
        }
    }
}

/// A walk lists every tag exactly once and in order, whatever the size of its pages, and ends.
pub proof fn a_walk_lists_every_tag_once(start: nat, max: usize, pages: nat)
    requires
        pages > layout().len() - page_start(start),
    ensures
        walk(start, max, pages) == layout().skip(page_start(start)),
    decreases pages,
{
    let from = page_start(start);
    let to = page_end(start, max);
    let page = layout().subrange(from, to);
    match resumes_at(start, max) {
        Some(n) => {
            a_walk_lists_every_tag_once(n, max, (pages - 1) as nat);
            assert(page_start(n) == to);
            assert(page + layout().skip(to) =~= layout().skip(from));
        },
        None => {
            assert(page =~= layout().skip(from));
        },
    }
}

/// The cursor a page hands out is read back as the instance the next page starts at.
pub proof fn a_cursor_is_read_back(start: nat, max: usize)
    requires
        resumes_at(start, max) is Some,
    ensures
        cursor_number(Some(decimal_nat(resumes_at(start, max)->0))) == resumes_at(start, max),
{
    a_number_is_read_back(resumes_at(start, max)->0);
}

// ---- a poll session ----

/// The wave the values follow, at one point: as a number, and its whole part.
#[derive(Clone, Copy, Debug)]
pub struct Wave {
    pub value: F64,
    pub whole: i64,
}

/// One session with the simulator.
#[derive(Debug)]
pub struct SimSession {
    /// How often it was read.
    pub tick: u64,
    /// The last value written to each tag.
    pub written: Object,
}

/// One value of a type: a toggle, the wave, its whole part, or the count of reads.
pub open spec fn scalar(ty: EipType, tick: u64, wave: Wave) -> JsonV {
    match ty {
        EipType::Bool => JsonV::Bool(tick % 2 == 0),
        EipType::Real | EipType::Lreal => JsonV::Float(wave.value.canonical()),
        EipType::Dint | EipType::Int | EipType::Sint | EipType::Lint => JsonV::Int(
            wave.whole as int,
        ),
        EipType::Udint | EipType::Uint | EipType::Usint | EipType::Ulint => JsonV::Int(tick as int),
    }
}

/// The value of a signal; an array takes one point of the wave for each element.
pub open spec fn synthesized(spec: SignalSpec, tick: u64, waves: Seq<Wave>) -> JsonV {
    match spec.array_count {
        Some(n) => JsonV::Array(
            Seq::new(n as nat, |i: int| scalar(spec.eip_type, tick, waves[i])),
        ),
        None => scalar(spec.eip_type, tick, waves[0]),
    }
}

/// Whether there are points enough for a signal.
pub open spec fn enough(spec: SignalSpec, waves: Seq<Wave>) -> bool {
    match spec.array_count {
        Some(n) => waves.len() >= n,
        None => waves.len() >= 1,
    }
}

fn scalar_value(ty: EipType, tick: u64, wave: Wave) -> (r: Json)
    ensures
        r@ == scalar(ty, tick, wave),
{
    match ty {
        EipType::Bool => Json::of_bool(tick % 2 == 0),
        EipType::Real | EipType::Lreal => {
            let j = Json::Number(Number::Float(wave.value));
            proof {
                lemma_meaning(j);
            }
            j
        },
        EipType::Dint | EipType::Int | EipType::Sint | EipType::Lint => Json::of_i64(wave.whole),
        EipType::Udint | EipType::Uint | EipType::Usint | EipType::Ulint => Json::of_u64(tick),
    }
}

impl SimSession {
    /// A session of which nothing was read or written yet.
    pub fn new() -> (r: SimSession)
        ensures
            r.tick == 0,
            r.written@ == Map::<Seq<char>, JsonV>::empty(),
    {
        SimSession { tick: 0, written: Object::new() }
    }

    /// Whether the simulator has this tag.
    pub fn known(tag_path: &str) -> (r: bool)
        ensures
            r == in_layout(tag_path@),
    {
        let wanted = owned(tag_path);
        let all = sim_tags();
        let ghost whole = layout();
        assert(tag_views(all@).len() == all@.len());
        let mut i: usize = 0;
        while i < all.len()
            invariant
                i <= all@.len(),
                whole == layout(),
                tag_views(all@) == whole,
                all@.len() == whole.len(),
                wanted@ == tag_path@,
                forall|j: int| 0 <= j < i ==> (#[trigger] whole[j]).name != tag_path@,
            decreases all@.len() - i,
        {
            assert(tag_views(all@)[i as int] == all@[i as int]@);
            if all[i].name == wanted {
                assert(whole[i as int].name == tag_path@);
                return true;
            }
            i = i + 1;
        }
        false
    }

    /// What a reading of a signal is: a written value verbatim; a plausible value for a known tag; bad,
    /// and not left out, for any other.
    pub open spec fn reads(self, spec: SignalSpec, waves: Seq<Wave>, r: Reading) -> bool {
        &&& r.signal_id@ == spec.tag_path@
        &&& text_view(r.name) == Some(spec.name@)
        &&& r.observed_type is None
        &&& if self.written@.dom().contains(spec.tag_path@) {
            &&& r.value@ == self.written@[spec.tag_path@]
            &&& r.quality == Quality::Good
            &&& text_view(r.quality_raw) == Some("0x00"@)
        } else if !in_layout(spec.tag_path@) {
            &&& r.value@ == JsonV::Null
            &&& r.quality == Quality::Bad
            &&& text_view(r.quality_raw) == Some("0x04 path segment error"@)
        } else {
            &&& r.value@ == synthesized(spec, self.tick, waves)
            &&& r.quality == Quality::Good
            &&& text_view(r.quality_raw) == Some("0x00"@)
        }
    }

    fn synth(&self, spec: &SignalSpec, waves: &Vec<Wave>) -> (r: Json)
        requires
            enough(*spec, waves@),
        ensures
            r@ == synthesized(*spec, self.tick, waves@),
    {
        match spec.array_count {
            Some(n) => {
                let mut out: Vec<Json> = Vec::new();
                let mut i: u32 = 0;
                while i < n
                    invariant
                        i <= n,
                        n <= waves@.len(),
                        out@.len() == i,
                        forall|k: int|
                            0 <= k < i ==> #[trigger] out@[k]@ == scalar(
                                spec.eip_type,
                                self.tick,
                                waves@[k],
                            ),
                    decreases n - i,
                {
                    out.push(scalar_value(spec.eip_type, self.tick, waves[i as usize]));
                    i = i + 1;
                }
                assert(values(out@) =~= Seq::new(
                    n as nat,
                    |k: int| scalar(spec.eip_type, self.tick, waves@[k]),
                ));
                Json::of_array(out)
            },
            None => scalar_value(spec.eip_type, self.tick, waves[0]),
        }
    }

    /// Read one signal.
    pub fn read_one(&self, spec: &SignalSpec, waves: &Vec<Wave>) -> (r: Reading)
        requires
            enough(*spec, waves@),
        ensures
            self.reads(*spec, waves@, r),
    {
        let signal_id = owned(spec.tag_path.as_str());
        let name = Some(owned(spec.name.as_str()));
        match self.written.get(spec.tag_path.as_str()) {
            Some(v) => {
                return Reading {
                    signal_id,
                    name,
                    value: v.copy(),
                    quality: Quality::Good,
                    quality_raw: Some(owned("0x00")),
                    observed_type: None,
                };
            },
            None => {},
        }
        if !SimSession::known(spec.tag_path.as_str()) {
            let value = Json::Null;
            proof {
                lemma_meaning(value);
            }
            return Reading {
                signal_id,
                name,
                value,
                quality: Quality::Bad,
                quality_raw: Some(owned("0x04 path segment error")),
                observed_type: None,
            };
        }
        Reading {
            signal_id,
            name,
            value: self.synth(spec, waves),
            quality: Quality::Good,
            quality_raw: Some(owned("0x00")),
            observed_type: None,
        }
    }

    /// Read signals, each into one reading, in order. The points of the wave are those of the next tick.
    pub fn read_signals(&mut self, signals: &Vec<SignalSpec>, waves: &Vec<Wave>) -> (r: Vec<Reading>)
        requires
            old(self).tick < u64::MAX,
            forall|i: int| 0 <= i < signals@.len() ==> enough(#[trigger] signals@[i], waves@),
        ensures
            *final(self) == (SimSession { tick: (old(self).tick + 1) as u64, ..*old(self) }),
            r@.len() == signals@.len(),
            forall|i: int|
                0 <= i < signals@.len() ==> final(self).reads(
                    #[trigger] signals@[i],
                    waves@,
                    r@[i],
                ),
    {
        self.tick = self.tick + 1;
        let mut out: Vec<Reading> = Vec::new();
        let mut i: usize = 0;
        while i < signals.len()
            invariant
                i <= signals@.len(),
                out@.len() == i,
                forall|k: int| 0 <= k < signals@.len() ==> enough(#[trigger] signals@[k], waves@),
                forall|k: int|
                    0 <= k < i ==> self.reads(#[trigger] signals@[k], waves@, out@[k]),
            decreases signals@.len() - i,
        {
            assert(enough(signals@[i as int], waves@));
            let one = self.read_one(&signals[i], waves);
            out.push(one);
            i = i + 1;
        }
        out
    }

    /// Write a signal: the value is read back from then on.
    pub fn write_signal(&mut self, signal: &SignalSpec, value: &Json)
        ensures
            final(self).tick == old(self).tick,
            final(self).written@ == old(self).written@.insert(signal.tag_path@, value@),
    {
        self.written.insert(signal.tag_path.as_str(), value.copy());
    }

    /// One page of the layout.
    pub fn browse(&self, cursor: &Option<String>, max: usize) -> (r: Result<BrowsePage, DeviceError>)
        ensures
            match r {
                Ok(page) => cursor_number(text_view(*cursor)) matches Some(start) && {
                    &&& tag_views(page.tags@) == layout().subrange(
                        page_start(start),
                        page_end(start, max),
                    )
                    &&& text_view(page.next_cursor) == (match resumes_at(start, max) {
                        Some(n) => Some(decimal_nat(n)),
                        None => None,
                    })
                },
                Err(e) => {
                    &&& cursor_number(text_view(*cursor)) is None
                    &&& e is Permanent
                    &&& e.text() == "invalid browse cursor `"@ + text_view(*cursor)->0 + "`"@
                },
            },
    {
        self::browse(cursor, max)
    }

    /// The simulator always answers.
    pub fn probe(&self) -> (r: Result<(), DeviceError>)
        ensures
            r is Ok,
    {
        Ok(())
    }

    /// The simulator's nameplate.
    pub fn identity(&self) -> (r: Option<DeviceIdentity>)
        ensures
            r matches Some(id) && is_simulator(id),
    {
        Some(sim_identity())
    }
}

/// A written value reads back as it was written, and no other tag is touched by the write.
pub proof fn a_written_value_reads_back(
    before: SimSession,
    after: SimSession,
    signal: SignalSpec,
    value: JsonV,
    other: SignalSpec,
    waves: Seq<Wave>,
    r: Reading,
    q: Reading,
)
    requires
        after.tick == before.tick,
        after.written@ == before.written@.insert(signal.tag_path@, value),
        after.reads(signal, waves, r),
        other.tag_path@ != signal.tag_path@,
    ensures
        r.value@ == value,
        r.quality == Quality::Good,
        after.reads(other, waves, q) <==> before.reads(other, waves, q),
{
}

// ---- a push session ----

/// The simulated class-1 producer.
#[derive(Debug)]
pub struct SimPushSession {
    /// Whether it said that the connection is up.
    pub announced: bool,
    /// How many frames it produced.
    pub tick: u64,
    /// The size of a frame.
    pub size: usize,
    /// How long it waits between two frames, in milliseconds.
    pub period_ms: u64,
    /// The intervals it announces, in milliseconds.
    pub o2t_api_ms: u32,
    pub t2o_api_ms: u32,
    /// The last frame it produced.
    pub last: Option<InputSnapshot>,
    /// The output assembly, as it is staged.
    pub out_buf: Vec<u8>,
}

/// What the producer does next.
#[derive(Clone, Copy, Debug, PartialEq, Eq, Structural)]
pub enum SimPushStep {
    /// Say that the connection is up, at these intervals.
    Up { o2t_api_ms: u32, t2o_api_ms: u32 },
    /// Wait that long, then produce a frame.
    Frame { after_ms: u64 },
}

/// A field cut out of a frame: its value, unless the frame does not reach it, and its transformed
/// numbers, when it has a transform.
#[derive(Debug)]
pub struct CutField {
    pub value: Option<CipValue>,
    pub published: Option<Vec<F64>>,
}

impl CutField {
    /// There is one transformed number for each number of the value.
    pub open spec fn fits(self) -> bool {
        match (self.value, self.published) {
            (Some(CipValue::Array(_, elems)), Some(p)) => p@.len() == elems@.len(),
            (Some(_), Some(p)) => p@.len() == 1,
            _ => true,
        }
    }

    pub open spec fn transformed(self) -> Option<Seq<F64>> {
        match self.published {
            Some(p) => Some(p@),
            None => None,
        }
    }
}

/// What a field of a frame reads as: one that is not finite is uncertain, and one that the frame does not
/// reach or that is of another type is bad. The native quality of a bad one says why.
pub open spec fn field_reads(field: IoFieldSpec, assembly: u16, cut: CutField, r: Reading) -> bool {
    &&& r.signal_id@ == field.stable_id(assembly)
    &&& text_view(r.name) == Some(field.name@)
    &&& r.observed_type is None
    &&& match cut.value {
        None => {
            &&& r.value == Json::Null
            &&& r.quality == Quality::Bad
            &&& text_view(r.quality_raw) == Some("short frame"@)
        },
        Some(v) => exists|d: Result<Decoded, DecodeError>|
            {
                &&& #[trigger] decodes(v, field.eip_type, cut.transformed(), d)
                &&& match d {
                    Ok(read) => {
                        &&& r.value == read.value
                        &&& r.quality == (if read.non_finite {
                            Quality::Uncertain
                        } else {
                            Quality::Good
                        })
                        &&& text_view(r.quality_raw) == Some("0x00"@)
                    },
                    Err(e) => {
                        &&& r.value == Json::Null
                        &&& r.quality == Quality::Bad
                        &&& text_view(r.quality_raw) == Some(e.text())
                    },
                }
            },
    }
}

fn field_reading(field: &IoFieldSpec, assembly: u16, cut: &CutField) -> (r: Reading)
    requires
        cut.fits(),
    ensures
        field_reads(*field, assembly, *cut, r),
{
    let decoded = match &cut.value {
        None => Err(owned("short frame")),
        Some(v) => {
            let d = match &cut.published {
                Some(p) => decode_value(v, field.eip_type, Some(p)),
                None => decode_value(v, field.eip_type, None),
            };
            assert(decodes(*v, field.eip_type, cut.transformed(), d));
            match d {
                Ok(d) => Ok(d),
                Err(e) => Err(e.quality_raw()),
            }
        },
    };
    let (value, quality, raw) = match decoded {
        Ok(d) => (
            d.value,
            if d.non_finite {
                Quality::Uncertain
            } else {
                Quality::Good
            },
            owned("0x00"),
        ),
        Err(why) => (Json::Null, Quality::Bad, why),
    };
    Reading {
        signal_id: field.signal_id(assembly),
        name: Some(field.name.clone()),
        value,
        quality,
        quality_raw: Some(raw),
        observed_type: None,
    }
}

/// One reading for each input field, in the order they are configured, from the fields as they were cut
/// out of a frame.
pub fn frame_readings(io: &IoConfig, cut: &Vec<CutField>) -> (r: Vec<Reading>)
    requires
        cut@.len() == io.input_fields@.len(),
        forall|i: int| 0 <= i < cut@.len() ==> (#[trigger] cut@[i]).fits(),
    ensures
        r@.len() == io.input_fields@.len(),
        forall|i: int|
            0 <= i < r@.len() ==> field_reads(
                io.input_fields@[i],
                io.input_assembly,
                cut@[i],
                #[trigger] r@[i],
            ),
{
    let mut out: Vec<Reading> = Vec::new();
    let mut i: usize = 0;
    while i < io.input_fields.len()
        invariant
            i <= io.input_fields@.len(),
            out@.len() == i,
            cut@.len() == io.input_fields@.len(),
            forall|k: int| 0 <= k < cut@.len() ==> (#[trigger] cut@[k]).fits(),
            forall|k: int|
                0 <= k < i ==> field_reads(
                    io.input_fields@[k],
                    io.input_assembly,
                    cut@[k],
                    #[trigger] out@[k],
                ),
        decreases io.input_fields@.len() - i,
    {
        out.push(field_reading(&io.input_fields[i], io.input_assembly, &cut[i]));
        i = i + 1;
    }
    out
}

/// A produced frame.
#[derive(Debug)]
pub struct SimFrame {
    pub bytes: Vec<u8>,
    pub sequence: u16,
}

/// An interval as it is announced: at most what 32 bits hold.
pub open spec fn api_ms(ms: u64) -> u32 {
    if ms <= u32::MAX {
        ms as u32
    } else {
        u32::MAX
    }
}

/// The pause between two frames: the packet interval, within 20 and 200 milliseconds.
pub open spec fn sim_period(rpi_ms: u64) -> u64 {
    if rpi_ms < 20 {
        20
    } else if rpi_ms > 200 {
        200
    } else {
        rpi_ms
    }
}

fn announced(ms: u64) -> (r: u32)
    ensures
        r == api_ms(ms),
{
    if ms <= u32::MAX as u64 {
        ms as u32
    } else {
        u32::MAX
    }
}

/// Whether a field of the output assembly is the one that is written.
pub open spec fn same_field(a: IoFieldSpec, b: IoFieldSpec) -> bool {
    a.offset == b.offset && a.eip_type == b.eip_type && a.bit == b.bit
}

/// The place of the first such field.
pub open spec fn is_place_of(fields: Seq<IoFieldSpec>, field: IoFieldSpec, at: int) -> bool {
    &&& 0 <= at < fields.len()
    &&& same_field(fields[at], field)
    &&& forall|j: int| 0 <= j < at ==> !same_field(#[trigger] fields[j], field)
}

/// Whether there is no such field.
pub open spec fn has_no_place(fields: Seq<IoFieldSpec>, field: IoFieldSpec) -> bool {
    forall|j: int| 0 <= j < fields.len() ==> !same_field(#[trigger] fields[j], field)
}

/// A frame of that many bytes, after that many frames: a rolling pattern, numbered.
pub open spec fn frame_of(tick: u64, size: usize, f: SimFrame) -> bool {
    &&& f.bytes@.len() == size
    &&& forall|i: int| 0 <= i < size ==> (#[trigger] f.bytes@[i]) as int == (tick + i) % 256
    &&& f.sequence as int == tick as int % 65536
}

/// How many bytes are staged for the output assembly: none without one.
pub open spec fn output_size(io: IoConfig) -> usize {
    if io.output_run is Some {
        io.output_size_bytes
    } else {
        0
    }
}

/// A producer for a connection, before it said anything and with nothing staged.
pub open spec fn is_new_producer(io: IoConfig, s: SimPushSession) -> bool {
    &&& !s.announced
    &&& s.tick == 0
    &&& s.size == io.input_size_bytes
    &&& s.period_ms == sim_period(io.rpi_ms)
    &&& s.o2t_api_ms == api_ms(io.o2t_rpi_ms)
    &&& s.t2o_api_ms == api_ms(io.rpi_ms)
    &&& s.last is None
    &&& s.out_buf@ == Seq::new(output_size(io) as nat, |i: int| 0u8)
}

/// Why the layouts of a connection are refused, if they are: the input layout comes first.
pub open spec fn layout_refusal(
    input_layout: Result<(), String>,
    output_layout: Result<(), String>,
) -> Option<Seq<char>> {
    match (input_layout, output_layout) {
        (Err(why), _) => Some(why@),
        (Ok(_), Err(why)) => Some(why@),
        (Ok(_), Ok(_)) => None,
    }
}

impl SimPushSession {
    /// A producer for a connection, from what laying out its input and its output assembly came to. A
    /// layout that is refused will not fit the next time either.
    pub fn open(
        io: &IoConfig,
        input_layout: Result<(), String>,
        output_layout: Result<(), String>,
    ) -> (r: Result<SimPushSession, DeviceError>)
        ensures
            match (layout_refusal(input_layout, output_layout), r) {
                (Some(why), Err(e)) => e is Permanent && e.text() == why,
                (None, Ok(s)) => is_new_producer(*io, s),
                _ => false,
            },
    {
        if let Err(why) = input_layout {
            return Err(DeviceError::Permanent(why));
        }
        if let Err(why) = output_layout {
            return Err(DeviceError::Permanent(why));
        }
        let staged: usize = if io.output_run.is_some() {
            io.output_size_bytes
        } else {
            0
        };
        let mut out_buf: Vec<u8> = Vec::new();
        let mut i: usize = 0;
        while i < staged
            invariant
                i <= staged,
                out_buf@ == Seq::new(i as nat, |k: int| 0u8),
            decreases staged - i,
        {
            out_buf.push(0);
            i = i + 1;
        }
        Ok(
            SimPushSession {
                announced: false,
                tick: 0,
                size: io.input_size_bytes,
                period_ms: if io.rpi_ms < 20 {
                    20
                } else if io.rpi_ms > 200 {
                    200
                } else {
                    io.rpi_ms
                },
                o2t_api_ms: announced(io.o2t_rpi_ms),
                t2o_api_ms: announced(io.rpi_ms),
                last: None,
                out_buf,
            },
        )
    }

    /// What comes next: once, that the connection is up, and from then on frame after frame.
    pub fn next_step(&mut self) -> (r: SimPushStep)
        ensures
            r == (if old(self).announced {
                SimPushStep::Frame { after_ms: old(self).period_ms }
            } else {
                SimPushStep::Up {
                    o2t_api_ms: old(self).o2t_api_ms,
                    t2o_api_ms: old(self).t2o_api_ms,
                }
            }),
            *final(self) == (SimPushSession { announced: true, ..*old(self) }),
    {
        if self.announced {
            return SimPushStep::Frame { after_ms: self.period_ms };
        }
        self.announced = true;
        SimPushStep::Up { o2t_api_ms: self.o2t_api_ms, t2o_api_ms: self.t2o_api_ms }
    }

    /// A produced frame was read: it is the last one from now on, and it goes out. The simulator always
    /// produces in run mode.
    pub fn produced(&mut self, sequence: u16, read: Vec<Reading>, received_at: Instant) -> (r: IoUpdate)
        ensures
            r == (IoUpdate::Data { readings: read, sequence, run_mode: true, received_at }),
            final(self).last matches Some(l) && readings(l.readings@) == readings(read@) && l.received_at
                == received_at && l.run_mode,
            *final(self) == (SimPushSession { last: final(self).last, ..*old(self) }),
    {
        self.last = Some(
            InputSnapshot { readings: copy_readings(&read), received_at, run_mode: true },
        );
        IoUpdate::Data { readings: read, sequence, run_mode: true, received_at }
    }

    /// The last frame it produced, if there was one.
    pub fn last_input(&self) -> (r: Option<InputSnapshot>)
        ensures
            match (self.last, r) {
                (Some(l), Some(s)) => readings(s.readings@) == readings(l.readings@) && s.received_at
                    == l.received_at && s.run_mode == l.run_mode,
                (None, None) => true,
                _ => false,
            },
    {
        match &self.last {
            Some(l) => Some(
                InputSnapshot {
                    readings: copy_readings(&l.readings),
                    received_at: l.received_at,
                    run_mode: l.run_mode,
                },
            ),
            None => None,
        }
    }

    /// The next frame: a rolling pattern, so that what is decoded from it moves.
    pub fn next_frame(&mut self) -> (r: SimFrame)
        ensures
            final(self).tick == (old(self).tick + 1) % 0x1_0000_0000_0000_0000,
            *final(self) == (SimPushSession { tick: final(self).tick, ..*old(self) }),
            frame_of(final(self).tick, old(self).size, r),
    {
        self.tick = self.tick.wrapping_add(1);
        let tick: u64 = self.tick;
        let low: u64 = tick % 256;
        let mut bytes: Vec<u8> = Vec::new();
        let mut i: usize = 0;
        while i < self.size
            invariant
                i <= self.size,
                bytes@.len() == i,
                low == tick % 256,
                forall|k: int|
                    0 <= k < i ==> (#[trigger] bytes@[k]) as int == (tick + k) % 256,
            decreases self.size - i,
        {
            let b: u64 = (low + (i % 256) as u64) % 256;
            bytes.push(b as u8);
            i = i + 1;
        }
        SimFrame { bytes, sequence: (tick % 65536) as u16 }
    }

    /// What goes into the output layout for a field, by its place, or why nothing does. `numbers` holds
    /// the floating-point side of the value. What the layout makes of it comes back in `staged`.
    pub fn set_output(
        &self,
        io: &IoConfig,
        field: &IoFieldSpec,
        value: &Json,
        numbers: &Vec<DeviceNumber>,
    ) -> (r: Result<(usize, CipValue), DeviceError>)
        requires
            field.array_count is None ==> numbers@.len() == 1,
            field.array_count is Some ==> (value matches Json::Array(items) ==> numbers@.len()
                == items@.len()),
        ensures
            if io.output_run is None {
                r matches Err(e) && e is Unsupported && e.text() == "device has no output assembly"@
            } else if has_no_place(io.output_fields@, *field) {
                r matches Err(e) && e is Permanent && e.text() == "unknown output field"@
            } else {
                exists|at: int, w: Result<CipValue, WriteError>|
                    {
                        &&& #[trigger] is_place_of(io.output_fields@, *field, at)
                        &&& #[trigger] field_writes(*value, *field, numbers@, w)
                        &&& match (w, r) {
                            (Ok(cip), Ok(staged)) => staged.0 == at && staged.1 == cip,
                            (Err(e), Err(d)) => d is Permanent && d.text() == e@.text(),
                            _ => false,
                        }
                    }
            },
    {
        if io.output_run.is_none() {
            return Err(DeviceError::Unsupported(owned("device has no output assembly")));
        }
        let mut at: usize = 0;
        while at < io.output_fields.len()
            invariant
                at <= io.output_fields@.len(),
                io.output_run is Some,
                field.array_count is None ==> numbers@.len() == 1,
                field.array_count is Some ==> (value matches Json::Array(items) ==> numbers@.len()
                    == items@.len()),
                forall|j: int|
                    0 <= j < at ==> !same_field(#[trigger] io.output_fields@[j], *field),
            decreases io.output_fields@.len() - at,
        {
            let f = &io.output_fields[at];
            if f.offset == field.offset && f.eip_type == field.eip_type && f.bit == field.bit {
                let w = encode_write(
                    value,
                    field.eip_type,
                    field.scale,
                    field.value_offset,
                    field.array_count,
                    numbers,
                );
                assert(same_field(io.output_fields@[at as int], *field));
                assert(is_place_of(io.output_fields@, *field, at as int));
                assert(field_writes(*value, *field, numbers@, w));
                return match w {
                    Ok(cip) => Ok((at, cip)),
                    Err(e) => Err(DeviceError::Permanent(e.message())),
                };
            }
            assert(!same_field(io.output_fields@[at as int], *field));
            at = at + 1;
        }
        Err(DeviceError::Permanent(owned("unknown output field")))
    }

    /// What staging a value into the output layout came to: `buffer` is the output assembly as the layout
    /// left it. A value that the layout refuses is refused for good.
    pub fn staged(&mut self, buffer: Vec<u8>, outcome: Result<(), String>) -> (r: Result<
        (),
        DeviceError,
    >)
        ensures
            *final(self) == (SimPushSession { out_buf: buffer, ..*old(self) }),
            match (outcome, r) {
                (Ok(_), Ok(_)) => true,
                (Err(why), Err(e)) => e is Permanent && e.text() == why@,
                _ => false,
            },
    {
        self.out_buf = buffer;
        match outcome {
            Ok(_) => Ok(()),
            Err(why) => Err(DeviceError::Permanent(why)),
        }
    }

    /// The simulator's nameplate.
    pub fn identity(&self) -> (r: Option<DeviceIdentity>)
        ensures
            r matches Some(id) && is_simulator(id),
    {
        Some(sim_identity())
    }
}

/// What writing a value to a field comes to, under the transform the field is configured with.
pub open spec fn field_writes(
    value: Json,
    field: IoFieldSpec,
    numbers: Seq<DeviceNumber>,
    w: Result<CipValue, WriteError>,
) -> bool {
    writes(value, field.eip_type, field.scale, field.value_offset, field.array_count, numbers, w)
}

/// Every byte moves from one frame to the next, also when the count of frames wraps, and so does the
/// sequence.
pub proof fn every_byte_moves(tick: u64, size: usize, first: SimFrame, second: SimFrame, i: int)
    requires
        frame_of(tick, size, first),
        frame_of(((tick + 1) % 0x1_0000_0000_0000_0000) as u64, size, second),
        0 <= i < size,
    ensures
        first.bytes@[i] != second.bytes@[i],
        first.sequence != second.sequence,
{
}

// ---- the backend ----

/// Opens simulated sessions.
#[derive(Clone, Copy, Debug)]
pub struct SimBackend;

impl SimBackend {
    /// The backend's name.
    pub fn kind(&self) -> (r: String)
        ensures
            r@ == "sim"@,
    {
        owned("sim")
    }

    /// Open a poll session. Without an endpoint asking again never helps.
    pub fn connect(&self, endpoint: &str) -> (r: Result<SimSession, DeviceError>)
        ensures
            r is Ok <==> endpoint@.len() > 0,
            match r {
                Ok(s) => s.tick == 0 && s.written@ == Map::<Seq<char>, JsonV>::empty(),
                Err(e) => e is Permanent && e.text() == "no endpoint configured"@,
            },
    {
        if endpoint.unicode_len() == 0 {
            return Err(DeviceError::Permanent(owned("no endpoint configured")));
        }
        Ok(SimSession::new())
    }

    /// Open a push session, from what laying out its assemblies came to. Without an endpoint, or with a
    /// layout that is refused, asking again never helps.
    pub fn open_push(
        &self,
        endpoint: &str,
        io: &IoConfig,
        input_layout: Result<(), String>,
        output_layout: Result<(), String>,
    ) -> (r: Result<SimPushSession, DeviceError>)
        ensures
            if endpoint@.len() == 0 {
                r matches Err(e) && e is Permanent && e.text() == "no endpoint configured"@
            } else {
                match (layout_refusal(input_layout, output_layout), r) {
                    (Some(why), Err(e)) => e is Permanent && e.text() == why,
                    (None, Ok(s)) => is_new_producer(*io, s),
                    _ => false,
                }
            },
    {
        if endpoint.unicode_len() == 0 {
            return Err(DeviceError::Permanent(owned("no endpoint configured")));
        }
        SimPushSession::open(io, input_layout, output_layout)
    }
}

// ---- what holds of every page, reading and frame ----

/// The layout numbers its tags from one on, without a gap, and has one array.
pub proof fn every_tag_has_the_next_instance(i: int)
    requires
        0 <= i < layout().len(),
    ensures
        layout().len() == 8,
        layout()[i].instance_id == i + 1,
        layout()[i].array_dim is Some <==> layout()[i].name == "ZONE_TEMPS"@,
        in_layout(layout()[i].name),
{
    reveal_strlit("ZONE_TEMPS");
    reveal_strlit("LINE_SPEED");
    reveal_strlit("FILL_TEMP");
    reveal_strlit("TANK_LEVEL");
    reveal_strlit("PRODUCT_COUNT");
    reveal_strlit("FILL_SETPOINT");
    reveal_strlit("MOTOR_RUN");
    reveal_strlit("RECIPE");
    assert("LINE_SPEED"@[0] != "ZONE_TEMPS"@[0]);
    assert("FILL_TEMP"@[0] != "ZONE_TEMPS"@[0]);
    assert("TANK_LEVEL"@[0] != "ZONE_TEMPS"@[0]);
    assert("PRODUCT_COUNT"@[0] != "ZONE_TEMPS"@[0]);
    assert("FILL_SETPOINT"@[0] != "ZONE_TEMPS"@[0]);
    assert("MOTOR_RUN"@[0] != "ZONE_TEMPS"@[0]);
    assert("RECIPE"@[0] != "ZONE_TEMPS"@[0]);
}

/// A page starts with the tag of the instance its cursor names, or with the first one, and holds as many
/// tags as were asked for, at least one, while there are that many; the next page starts with the tag
/// behind its last one, and there is no next page once the layout is through.
pub proof fn a_page_holds_what_was_asked_for(start: nat, max: usize)
    ensures
        ({
            let from = page_start(start);
            let to = page_end(start, max);
            &&& start == 0 ==> from == 0
            &&& 1 <= start <= 8 ==> layout()[from].instance_id == start
            &&& start > 8 ==> from == 8
            &&& 0 <= from <= to <= 8
            &&& max > 0 ==> to - from == if max <= 8 - from {
                max as int
            } else {
                8 - from
            }
            &&& max == 0 && from < 8 ==> to == from + 1
            &&& to < 8 ==> resumes_at(start, max) is Some
            &&& resumes_at(start, max) matches Some(n) ==> page_start(n) == to && layout()[to].instance_id
                == n
            &&& to == 8 ==> resumes_at(start, max) is None
        }),
        cursor_number(None) == Some(0nat),
{
}

/// A tag that was never written and that the layout has reads as a good value of its type: a toggle for a
/// bool, the wave for a number with a fraction, its whole part for a signed one and the count of reads for
/// an unsigned one; an array takes, for each element, the point of the wave at that place.
pub proof fn a_known_tag_reads_plausibly(
    s: SimSession,
    spec: SignalSpec,
    waves: Seq<Wave>,
    r: Reading,
    i: int,
)
    requires
        s.reads(spec, waves, r),
        !s.written@.dom().contains(spec.tag_path@),
        in_layout(spec.tag_path@),
    ensures
        r.quality is Good,
        r.signal_id@ == spec.tag_path@,
        text_view(r.name) == Some(spec.name@),
        text_view(r.quality_raw) == Some("0x00"@),
        spec.array_count is None ==> match spec.eip_type {
            EipType::Bool => r.value@ == JsonV::Bool(s.tick % 2 == 0),
            EipType::Real | EipType::Lreal => r.value@ == JsonV::Float(waves[0].value.canonical()),
            EipType::Sint | EipType::Int | EipType::Dint | EipType::Lint => r.value@ == JsonV::Int(
                waves[0].whole as int,
            ),
            EipType::Usint | EipType::Uint | EipType::Udint | EipType::Ulint => r.value@
                == JsonV::Int(s.tick as int),
        },
        spec.array_count matches Some(n) ==> r.value@ is Array && r.value@->Array_0.len() == n,
        spec.array_count matches Some(n) ==> (0 <= i < n ==> ({
            let e = r.value@->Array_0;
            match spec.eip_type {
                EipType::Bool => e[i] == JsonV::Bool(s.tick % 2 == 0),
                EipType::Real | EipType::Lreal => e[i] == JsonV::Float(waves[i].value.canonical()),
                EipType::Sint | EipType::Int | EipType::Dint | EipType::Lint => e[i] == JsonV::Int(
                    waves[i].whole as int,
                ),
                EipType::Usint | EipType::Uint | EipType::Udint | EipType::Ulint => e[i]
                    == JsonV::Int(s.tick as int),
            }
        })),
{
}

/// A tag that the layout does not have, and that was never written, is not left out: it reads as bad.
pub proof fn an_unknown_tag_reads_bad(s: SimSession, spec: SignalSpec, waves: Seq<Wave>, r: Reading)
    requires
        s.reads(spec, waves, r),
        !s.written@.dom().contains(spec.tag_path@),
        forall|i: int| 0 <= i < layout().len() ==> (#[trigger] layout()[i]).name != spec.tag_path@,
    ensures
        r.quality is Bad,
        r.value@ is Null,
        r.signal_id@ == spec.tag_path@,
        text_view(r.name) == Some(spec.name@),
        text_view(r.quality_raw) == Some("0x04 path segment error"@),
{
}

/// A field of a frame is read under its own id and name. One that the frame does not reach is bad; one that
/// decodes has the decoded value, and is good unless it is not finite; one that does not is bad and says why.
pub proof fn a_field_reads_what_was_cut_for_it(
    field: IoFieldSpec,
    assembly: u16,
    cut: CutField,
    r: Reading,
) -> (d: Option<Result<Decoded, DecodeError>>)
    requires
        field_reads(field, assembly, cut, r),
    ensures
        r.signal_id@ == field.stable_id(assembly),
        text_view(r.name) == Some(field.name@),
        d is None <==> cut.value is None,
        match d {
            None => r.quality is Bad && r.value == Json::Null && text_view(r.quality_raw) == Some(
                "short frame"@,
            ),
            Some(Ok(read)) => {
                &&& r.value == read.value
                &&& r.quality is Uncertain <==> read.non_finite
                &&& r.quality is Good <==> !read.non_finite
            },
            Some(Err(e)) => r.quality is Bad && r.value == Json::Null && text_view(r.quality_raw)
                == Some(e.text()),
        },
        cut.value matches Some(v) ==> decodes(
            v,
            field.eip_type,
            match cut.published {
                Some(p) => Some(p@),
                None => None,
            },
            d->0,
        ),
{
    match cut.value {
        None => None,
        Some(v) => {
            let d = choose|d: Result<Decoded, DecodeError>|
                {
                    &&& #[trigger] decodes(v, field.eip_type, cut.transformed(), d)
                    &&& match d {
                        Ok(read) => {
                            &&& r.value == read.value
                            &&& r.quality == (if read.non_finite {
                                Quality::Uncertain
                            } else {
                                Quality::Good
                            })
                            &&& text_view(r.quality_raw) == Some("0x00"@)
                        },
                        Err(e) => {
                            &&& r.value == Json::Null
                            &&& r.quality == Quality::Bad
                            &&& text_view(r.quality_raw) == Some(e.text())
                        },
                    }
                };
            Some(d)
        },
    }
}

/// A frame is a pattern that rolls by one from each byte to the next, from the count of frames on, and is
/// numbered by that count.
pub proof fn a_frame_rolls(tick: u64, size: usize, f: SimFrame, i: int)
    requires
        frame_of(tick, size, f),
        0 <= i < size,
    ensures
        f.bytes@.len() == size,
        f.bytes@[0] == tick % 256,
        i > 0 ==> f.bytes@[i] as int == (f.bytes@[i - 1] + 1) % 256,
        f.sequence == tick % 65536,
{
}

/// A producer starts silent, with frames of the size of the input assembly, at its packet interval but no
/// faster than 20 and no slower than 200 milliseconds, and with as many zero bytes staged as its output
/// assembly has: none without one. It announces both intervals as they are, as far as 32 bits hold them.
pub proof fn a_producer_starts_as_configured(io: IoConfig, s: SimPushSession, i: int)
    requires
        is_new_producer(io, s),
    ensures
        !s.announced,
        s.tick == 0,
        s.last is None,
        s.size == io.input_size_bytes,
        20 <= s.period_ms <= 200,
        20 <= io.rpi_ms <= 200 ==> s.period_ms == io.rpi_ms,
        io.rpi_ms < 20 ==> s.period_ms == 20,
        io.rpi_ms > 200 ==> s.period_ms == 200,
        io.o2t_rpi_ms <= u32::MAX ==> s.o2t_api_ms == io.o2t_rpi_ms,
        io.o2t_rpi_ms > u32::MAX ==> s.o2t_api_ms == u32::MAX,
        io.rpi_ms <= u32::MAX ==> s.t2o_api_ms == io.rpi_ms,
        io.rpi_ms > u32::MAX ==> s.t2o_api_ms == u32::MAX,
        io.output_run is None ==> s.out_buf@.len() == 0,
        io.output_run is Some ==> s.out_buf@.len() == io.output_size_bytes,
        0 <= i < s.out_buf@.len() ==> s.out_buf@[i] == 0,
{
}

/// A connection is refused exactly when one of its layouts is, in the words of the input layout where that
/// one is.
pub proof fn a_layout_is_refused_for_its_own_reason(
    input_layout: Result<(), String>,
    output_layout: Result<(), String>,
)
    ensures
        layout_refusal(input_layout, output_layout) is None <==> input_layout is Ok && output_layout is Ok,
        input_layout matches Err(why) ==> layout_refusal(input_layout, output_layout) == Some(why@),
        input_layout is Ok ==> (output_layout matches Err(why) ==> layout_refusal(
            input_layout,
            output_layout,
        ) == Some(why@)),
{
}

/// A written field is found at the first place with its offset, its type and its bit, and is not found only
/// where no field has all three.
pub proof fn a_field_is_found_by_offset_type_and_bit(
    fields: Seq<IoFieldSpec>,
    field: IoFieldSpec,
    at: int,
)
    ensures
        is_place_of(fields, field, at) ==> {
            &&& 0 <= at < fields.len()
            &&& fields[at].offset == field.offset
            &&& fields[at].eip_type == field.eip_type
            &&& fields[at].bit == field.bit
            &&& forall|j: int|
                0 <= j < at ==> (#[trigger] fields[j]).offset != field.offset || fields[j].eip_type
                    != field.eip_type || fields[j].bit != field.bit
        },
        has_no_place(fields, field) <==> forall|j: int|
            0 <= j < fields.len() ==> (#[trigger] fields[j]).offset != field.offset
                || fields[j].eip_type != field.eip_type || fields[j].bit != field.bit,
{
    if forall|j: int|
        0 <= j < fields.len() ==> (#[trigger] fields[j]).offset != field.offset
            || fields[j].eip_type != field.eip_type || fields[j].bit != field.bit {
        assert(has_no_place(fields, field));
    }
    if has_no_place(fields, field) {
        assert forall|j: int| 0 <= j < fields.len() implies (#[trigger] fields[j]).offset
            != field.offset || fields[j].eip_type != field.eip_type || fields[j].bit
            != field.bit by {
            assert(!same_field(fields[j], field));
        }
    }
    if is_place_of(fields, field, at) {
        assert forall|j: int| 0 <= j < at implies (#[trigger] fields[j]).offset != field.offset
            || fields[j].eip_type != field.eip_type || fields[j].bit != field.bit by {
            assert(!same_field(fields[j], field));
        }
    }
}

/// A field is written as a value of its own type, under its own transform and array length.
pub proof fn a_field_is_written_under_its_own_transform(
    value: Json,
    field: IoFieldSpec,
    numbers: Seq<DeviceNumber>,
    w: Result<CipValue, WriteError>,
)
    requires
        field_writes(value, field, numbers, w),
    ensures
        writes(
            value,
            field.eip_type,
            field.scale,
            field.value_offset,
            field.array_count,
            numbers,
            w,
        ),
{
}

} // verus!
