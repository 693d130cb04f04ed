//! The parsed configuration the decisions are taken over.

use vstd::prelude::*;

use crate::ieee::F64;
use crate::json::{Json, JsonV, Object};
use crate::text::{append_decimal, decimal_nat, texts};

verus! {

/// Which samples of a signal are published.
#[derive(Clone, Copy, Debug, PartialEq, Eq, Structural)]
pub enum PublishMode {
    /// Those that differ from the last published value past the deadband.
    OnChange,
    /// Every one.
    Always,
}

impl PublishMode {
    /// The configuration spelling.
    pub open spec fn token(self) -> Seq<char> {
        match self {
            PublishMode::OnChange => "onChange"@,
            PublishMode::Always => "always"@,
        }
    }

    /// The configuration spelling.
    pub fn as_str(self) -> (s: &'static str)
        ensures
            s@ == self.token(),
    {
        match self {
            PublishMode::OnChange => "onChange",
            PublishMode::Always => "always",
        }
    }
}

/// How a change is measured.
#[derive(Clone, Copy, Debug, PartialEq, Eq, Structural)]
pub enum DeadbandKind {
    /// Any change counts.
    AnyChange,
    /// A change of at least the value counts.
    Absolute,
    /// A change of at least that percentage of the old value counts.
    Percent,
}

/// The change below which a sample is not published.
#[derive(Clone, Copy, Debug, PartialEq, Eq, Structural)]
pub struct DeadbandSpec {
    pub kind: DeadbandKind,
    pub value: F64,
}

impl Default for DeadbandSpec {
    fn default() -> (r: DeadbandSpec)
        ensures
            r.kind == DeadbandKind::AnyChange,
            r.value.bits == 0,
    {
        DeadbandSpec { kind: DeadbandKind::AnyChange, value: F64 { bits: 0 } }
    }
}

/// The elementary types a signal can be configured with.
#[derive(Clone, Copy, Debug, PartialEq, Eq, Structural)]
pub enum EipType {
    Bool,
    Sint,
    Usint,
    Int,
    Uint,
    Dint,
    Udint,
    Lint,
    Ulint,
    Real,
    Lreal,
}

impl EipType {
    /// The configuration spelling.
    pub open spec fn spelling(self) -> Seq<char> {
        match self {
            EipType::Bool => "bool"@,
            EipType::Sint => "sint"@,
            EipType::Usint => "usint"@,
            EipType::Int => "int"@,
            EipType::Uint => "uint"@,
            EipType::Dint => "dint"@,
            EipType::Udint => "udint"@,
            EipType::Lint => "lint"@,
            EipType::Ulint => "ulint"@,
            EipType::Real => "real"@,
            EipType::Lreal => "lreal"@,
        }
    }

    /// The configuration spelling.
    pub fn wire(self) -> (s: &'static str)
        ensures
            s@ == self.spelling(),
    {
        match self {
            EipType::Bool => "bool",
            EipType::Sint => "sint",
            EipType::Usint => "usint",
            EipType::Int => "int",
            EipType::Uint => "uint",
            EipType::Dint => "dint",
            EipType::Udint => "udint",
            EipType::Lint => "lint",
            EipType::Ulint => "ulint",
            EipType::Real => "real",
            EipType::Lreal => "lreal",
        }
    }
}

/// One configured signal of a poll group.
#[derive(Debug)]
pub struct SignalSpec {
    pub name: String,
    /// The tag, and the stable id of the signal.
    pub tag_path: String,
    pub eip_type: EipType,
    pub array_count: Option<u32>,
    /// The published number is the device's times this,
    pub scale: Option<F64>,
    /// plus this.
    pub value_offset: Option<F64>,
    pub deadband: DeadbandSpec,
}

/// Signals read together on one cadence.
#[derive(Debug)]
pub struct PollGroup {
    pub id: Option<String>,
    pub signals: Vec<SignalSpec>,
    /// The publish mode that holds for the group.
    pub publish_mode: PublishMode,
    /// The cadence that holds for the group.
    pub poll_interval_ms: u64,
}

impl PollGroup {
    /// The group's name in metrics; a group without an id is `group`.
    pub open spec fn label(self) -> Seq<char> {
        match self.id {
            Some(id) => id@,
            None => "group"@,
        }
    }

    /// The group's name in metrics; a group without an id is `group`.
    pub fn name(&self) -> (r: String)
        ensures
            r@ == self.label(),
    {
        match &self.id {
            Some(id) => id.clone(),
            None => "group".to_owned(),
        }
    }
}

/// How a device is driven.
#[derive(Clone, Copy, Debug, PartialEq, Eq, Structural)]
pub enum DeviceMode {
    /// Scheduled reads.
    Poll,
    /// Cyclic class-1 frames.
    Push,
}

/// Defaults a device or the whole component can set.
#[derive(Clone, Copy, Debug, PartialEq, Eq, Structural)]
pub struct Defaults {
    pub publish_mode: Option<PublishMode>,
    pub batch_ms: Option<u64>,
}

/// One field of an assembly.
#[derive(Debug)]
pub struct IoFieldSpec {
    pub name: String,
    pub offset: u32,
    pub eip_type: EipType,
    pub bit: Option<u8>,
    pub array_count: Option<u32>,
    /// The published number is the device's times this,
    pub scale: Option<F64>,
    /// plus this.
    pub value_offset: Option<F64>,
    pub deadband: Option<DeadbandSpec>,
}

/// The class-1 connection of a push device.
#[derive(Debug)]
pub struct IoConfig {
    pub input_assembly: u16,
    pub input_size_bytes: usize,
    /// The minimum spacing of the good samples of a field.
    pub sample_ms: u64,
    pub input_fields: Vec<IoFieldSpec>,
    /// Whether the output assembly is produced in run mode; absent without an output assembly.
    pub output_run: Option<bool>,
    pub output_size_bytes: usize,
    pub output_fields: Vec<IoFieldSpec>,
    pub rpi_ms: u64,
    pub o2t_rpi_ms: u64,
}

/// One device.
#[derive(Debug)]
pub struct DeviceConfig {
    pub id: String,
    pub adapter: String,
    pub endpoint: String,
    /// The backplane slot of the controller.
    pub slot: Option<u8>,
    /// Explicit messages over a connection, rather than unconnected.
    pub connected: bool,
    pub mode: DeviceMode,
    pub poll_groups: Vec<PollGroup>,
    pub defaults: Defaults,
    /// The tags that may be written.
    pub write_allow: Vec<String>,
    pub io: Option<IoConfig>,
}

/// The deadlines of the whole component.
#[derive(Clone, Copy, Debug, PartialEq, Eq, Structural)]
pub struct Timeouts {
    pub connect_ms: u64,
    pub request_timeout_ms: u64,
    pub reconnect_backoff_min_ms: u64,
    pub reconnect_backoff_max_ms: u64,
}

/// The configuration of the whole component.
#[derive(Clone, Copy, Debug, PartialEq, Eq, Structural)]
pub struct GlobalConfig {
    pub timeouts: Timeouts,
    pub defaults: Defaults,
    pub metrics_interval_secs: u64,
    pub stale_signal_secs: u64,
    pub keepalive_probe_interval_ms: u64,
}

impl DeviceConfig {
    /// The connection mode's name in metrics.
    pub open spec fn connection_label(self) -> Seq<char> {
        if self.connected {
            "connected"@
        } else {
            "unconnected"@
        }
    }

    /// The connection mode's name in metrics.
    pub fn connection_mode(&self) -> (r: &'static str)
        ensures
            r@ == self.connection_label(),
    {
        if self.connected {
            "connected"
        } else {
            "unconnected"
        }
    }

    /// The tag may be written.
    pub open spec fn may_write(self, tag: Seq<char>) -> bool {
        texts(self.write_allow@).contains(tag)
    }

    /// Whether the tag may be written.
    pub fn permits(&self, tag: &str) -> (r: bool)
        ensures
            r == self.may_write(tag@),
    {
        holds_text(&self.write_allow, tag)
    }
}

/// The publish mode of a push device: its own default, else the component's, else on change.
pub open spec fn push_mode(device: Defaults, global: Defaults) -> PublishMode {
    match device.publish_mode {
        Some(m) => m,
        None => match global.publish_mode {
            Some(m) => m,
            None => PublishMode::OnChange,
        },
    }
}

/// The publish mode of a push device: its own default, else the component's, else on change.
pub fn push_publish_mode(device: Defaults, global: Defaults) -> (r: PublishMode)
    ensures
        r == push_mode(device, global),
{
    match device.publish_mode {
        Some(m) => m,
        None => match global.publish_mode {
            Some(m) => m,
            None => PublishMode::OnChange,
        },
    }
}

/// The batch window of a device: its own default, else the component's, else none.
pub open spec fn batch_window(device: Defaults, global: Defaults) -> u64 {
    match device.batch_ms {
        Some(ms) => ms,
        None => match global.batch_ms {
            Some(ms) => ms,
            None => 0,
        },
    }
}

/// Whether a group has a signal of that id.
pub open spec fn has_tag(group: PollGroup, id: Seq<char>) -> bool {
    exists|i: int| 0 <= i < group.signals@.len() && (#[trigger] group.signals@[i]).tag_path@ == id
}

/// The publish mode of the last of the first `n` groups that has the signal.
pub open spec fn mode_among(groups: Seq<PollGroup>, n: nat, id: Seq<char>) -> Option<PublishMode>
    decreases n,
{
    if n == 0 {
        None
    } else if has_tag(groups[n - 1], id) {
        Some(groups[n - 1].publish_mode)
    } else {
        mode_among(groups, (n - 1) as nat, id)
    }
}

/// The ids of a group's signals, in order.
pub open spec fn group_tags(group: PollGroup) -> Seq<Seq<char>> {
    Seq::new(group.signals@.len(), |i: int| group.signals@[i].tag_path@)
}

/// The ids of the signals of the first `n` groups, in order.
pub open spec fn tags_among(groups: Seq<PollGroup>, n: nat) -> Seq<Seq<char>>
    decreases n,
{
    if n == 0 {
        Seq::empty()
    } else {
        tags_among(groups, (n - 1) as nat) + group_tags(groups[n - 1])
    }
}

fn group_has(group: &PollGroup, id: &str) -> (r: Option<usize>)
    ensures
        match r {
            Some(i) => i < group.signals@.len() && group.signals@[i as int].tag_path@ == id@
                && forall|j: int| 0 <= j < i ==> (#[trigger] group.signals@[j]).tag_path@ != id@,
            None => !has_tag(*group, id@),
        },
{
    let wanted = id.to_owned();
    let mut i: usize = 0;
    while i < group.signals.len()
        invariant
            i <= group.signals@.len(),
            wanted@ == id@,
            forall|j: int| 0 <= j < i ==> (#[trigger] group.signals@[j]).tag_path@ != id@,
        decreases group.signals@.len() - i,
    {
        if group.signals[i].tag_path == wanted {
            return Some(i);
        }
        i = i + 1;
    }
    None
}

/// The first that is given: the group's, the device's, the component's, or else `otherwise`.
pub open spec fn resolved<T>(group: Option<T>, device: Option<T>, global: Option<T>, otherwise: T) -> T {
    match group {
        Some(v) => v,
        None => match device {
            Some(v) => v,
            None => match global {
                Some(v) => v,
                None => otherwise,
            },
        },
    }
}

/// The cadence of a group.
pub fn effective_poll_ms(
    group: Option<u64>,
    device: Option<u64>,
    global: Option<u64>,
    otherwise: u64,
) -> (r: u64)
    ensures
        r == resolved(group, device, global, otherwise),
{
    match group {
        Some(ms) => ms,
        None => match device {
            Some(ms) => ms,
            None => match global {
                Some(ms) => ms,
                None => otherwise,
            },
        },
    }
}

/// The publish mode of a group: on change, unless something else is given.
pub fn effective_publish_mode(
    group: Option<PublishMode>,
    device: Option<PublishMode>,
    global: Option<PublishMode>,
) -> (r: PublishMode)
    ensures
        r == resolved(group, device, global, PublishMode::OnChange),
{
    match group {
        Some(mode) => mode,
        None => match device {
            Some(mode) => mode,
            None => match global {
                Some(mode) => mode,
                None => PublishMode::OnChange,
            },
        },
    }
}

impl DeviceConfig {
    /// The batch window of this device.
    pub fn effective_batch_ms(&self, global: &GlobalConfig) -> (r: u64)
        ensures
            r == batch_window(self.defaults, global.defaults),
    {
        match self.defaults.batch_ms {
            Some(ms) => ms,
            None => match global.defaults.batch_ms {
                Some(ms) => ms,
                None => 0,
            },
        }
    }

    /// Whether a signal of that id is configured.
    pub open spec fn has_signal(self, id: Seq<char>) -> bool {
        exists|g: int| 0 <= g < self.poll_groups@.len() && has_tag(#[trigger] self.poll_groups@[g], id)
    }

    /// The first configured signal of that id, by its group and its place there.
    pub fn find_signal(&self, id: &str) -> (r: Option<(usize, usize)>)
        ensures
            match r {
                Some((g, i)) => {
                    &&& g < self.poll_groups@.len()
                    &&& i < self.poll_groups@[g as int].signals@.len()
                    &&& self.poll_groups@[g as int].signals@[i as int].tag_path@ == id@
                    &&& forall|j: int|
                        0 <= j < i ==> (#[trigger] self.poll_groups@[g as int].signals@[j]).tag_path@
                            != id@
                    &&& forall|j: int| 0 <= j < g ==> !has_tag(#[trigger] self.poll_groups@[j], id@)
                    &&& self.has_signal(id@)
                },
                None => !self.has_signal(id@),
            },
    {
        let mut g: usize = 0;
        while g < self.poll_groups.len()
            invariant
                g <= self.poll_groups@.len(),
                forall|j: int| 0 <= j < g ==> !has_tag(#[trigger] self.poll_groups@[j], id@),
            decreases self.poll_groups@.len() - g,
        {
            match group_has(&self.poll_groups[g], id) {
                Some(i) => {
                    assert(has_tag(self.poll_groups@[g as int], id@));
                    return Some((g, i));
                },
                None => {},
            }
            g = g + 1;
        }
        None
    }

    /// The publish mode a signal is accounted under.
    pub open spec fn mode_of(self, id: Seq<char>) -> Option<PublishMode> {
        mode_among(self.poll_groups@, self.poll_groups@.len(), id)
    }

    /// The publish mode a signal is accounted under: that of the last group that has it.
    pub fn signal_mode(&self, id: &str) -> (r: Option<PublishMode>)
        ensures
            r == self.mode_of(id@),
    {
        let mut n: usize = self.poll_groups.len();
        while n > 0
            invariant
                n <= self.poll_groups@.len(),
                self.mode_of(id@) == mode_among(self.poll_groups@, n as nat, id@),
            decreases n,
        {
            if group_has(&self.poll_groups[n - 1], id).is_some() {
                assert(has_tag(self.poll_groups@[n - 1], id@));
                return Some(self.poll_groups[n - 1].publish_mode);
            }
            n = n - 1;
        }
        None
    }

    /// The ids of every polled signal.
    pub open spec fn tags(self) -> Seq<Seq<char>> {
        tags_among(self.poll_groups@, self.poll_groups@.len())
    }

    /// The ids of every polled signal, in the order they are configured.
    pub fn signal_ids(&self) -> (r: Vec<String>)
        ensures
            texts(r@) == self.tags(),
    {
        let mut out: Vec<String> = Vec::new();
        assert(texts(out@) =~= Seq::<Seq<char>>::empty());
        let mut g: usize = 0;
        while g < self.poll_groups.len()
            invariant
                g <= self.poll_groups@.len(),
                texts(out@) == tags_among(self.poll_groups@, g as nat),
            decreases self.poll_groups@.len() - g,
        {
            let group = &self.poll_groups[g];
            let ghost had = texts(out@);
            assert(had + group_tags(*group).take(0) =~= had);
            let mut i: usize = 0;
            while i < group.signals.len()
                invariant
                    i <= group.signals@.len(),
                    texts(out@) == had + group_tags(*group).take(i as int),
                decreases group.signals@.len() - i,
            {
                let ghost sofar = out@;
                out.push(group.signals[i].tag_path.clone());
                assert(texts(out@) =~= texts(sofar).push(group_tags(*group)[i as int]));
                assert(group_tags(*group).take(i + 1) =~= group_tags(*group).take(i as int).push(
                    group_tags(*group)[i as int],
                ));
                assert(texts(out@) =~= had + group_tags(*group).take(i + 1));
                i = i + 1;
            }
            assert(group_tags(*group).take(i as int) =~= group_tags(*group));
            g = g + 1;
        }
        out
    }

    /// The entries of the write list that name no polled signal.
    pub open spec fn unmatched(self) -> Seq<Seq<char>> {
        let tags = self.tags();
        texts(self.write_allow@).filter(|entry: Seq<char>| !tags.contains(entry))
    }

    /// The entries of the write list that name no polled signal, in the order they are configured. They
    /// still permit writes by reference.
    pub fn unmatched_allow_entries(&self) -> (r: Vec<String>)
        ensures
            texts(r@) == self.unmatched(),
    {
        let tags = self.signal_ids();
        let ghost known = self.tags();
        let ghost strange = |entry: Seq<char>| !known.contains(entry);
        let ghost entries = texts(self.write_allow@);
        let mut out: Vec<String> = Vec::new();
        proof {
            reveal(Seq::filter);
            assert(texts(out@) =~= entries.take(0).filter(strange));
        }
        let mut i: usize = 0;
        while i < self.write_allow.len()
            invariant
                i <= self.write_allow@.len(),
                known == self.tags(),
                texts(tags@) == known,
                entries == texts(self.write_allow@),
                strange == |entry: Seq<char>| !known.contains(entry),
                texts(out@) == entries.take(i as int).filter(strange),
            decreases self.write_allow@.len() - i,
        {
            let entry = &self.write_allow[i];
            if !holds_text(&tags, entry.as_str()) {
                let ghost sofar = out@;
                out.push(entry.clone());
                assert(texts(out@) =~= texts(sofar).push(entry@));
            }
            proof {
                reveal(Seq::filter);
                assert(entries[i as int] == entry@);
                assert(entries.take(i + 1).drop_last() =~= entries.take(i as int));
            }
            i = i + 1;
        }
        assert(entries.take(i as int) =~= entries);
        out
    }
}

/// A member that is there only when there is a value.
pub open spec fn with_number(
    m: Map<Seq<char>, JsonV>,
    key: Seq<char>,
    v: Option<int>,
) -> Map<Seq<char>, JsonV> {
    match v {
        Some(n) => m.insert(key, JsonV::Int(n)),
        None => m,
    }
}

/// A count as an integer.
pub open spec fn count_of(v: Option<u32>) -> Option<int> {
    match v {
        Some(n) => Some(n as int),
        None => None,
    }
}

/// A bit or a slot as an integer.
pub open spec fn bit_of(v: Option<u8>) -> Option<int> {
    match v {
        Some(n) => Some(n as int),
        None => None,
    }
}

impl SignalSpec {
    /// Where a polled signal lives: its tag, its type, how many elements, and the slot.
    pub open spec fn address(self, slot: Option<u8>) -> Map<Seq<char>, JsonV> {
        with_number(
            with_number(
                Map::empty().insert("tagPath"@, JsonV::Text(self.tag_path@)).insert(
                    "type"@,
                    JsonV::Text(self.eip_type.spelling()),
                ),
                "arrayCount"@,
                count_of(self.array_count),
            ),
            "slot"@,
            bit_of(slot),
        )
    }

    /// Where a polled signal lives.
    pub fn address_json(&self, slot: Option<u8>) -> (j: Json)
        ensures
            j@ == JsonV::Object(self.address(slot)),
    {
        let mut o = Object::new();
        o.insert("tagPath", Json::of_text(self.tag_path.as_str()));
        o.insert("type", Json::of_text(self.eip_type.wire()));
        if let Some(n) = self.array_count {
            o.insert("arrayCount", Json::of_u64(n as u64));
        }
        if let Some(n) = slot {
            o.insert("slot", Json::of_u64(n as u64));
        }
        Json::of_object(o)
    }
}

impl IoFieldSpec {
    /// The stable id of a field: `a<assembly>/<offset>/<type>`, and `.<bit>` for a bit.
    pub open spec fn stable_id(self, assembly: u16) -> Seq<char> {
        let id = "a"@ + decimal_nat(assembly as nat) + "/"@ + decimal_nat(self.offset as nat) + "/"@
            + self.eip_type.spelling();
        match self.bit {
            Some(b) => id + "."@ + decimal_nat(b as nat),
            None => id,
        }
    }

    /// The stable id of a field.
    pub fn signal_id(&self, assembly: u16) -> (r: String)
        ensures
            r@ == self.stable_id(assembly),
    {
        let mut r = "a".to_owned();
        append_decimal(&mut r, assembly as u128);
        r.append("/");
        append_decimal(&mut r, self.offset as u128);
        r.append("/");
        r.append(self.eip_type.wire());
        if let Some(b) = self.bit {
            r.append(".");
            append_decimal(&mut r, b as u128);
        }
        r
    }

    /// Where a field lives: its assembly and offset, its type, its bit or how many elements, and the
    /// slot.
    pub open spec fn address(self, assembly: u16, slot: Option<u8>) -> Map<Seq<char>, JsonV> {
        with_number(
            with_number(
                with_number(
                    Map::empty().insert("assembly"@, JsonV::Int(assembly as int)).insert(
                        "offset"@,
                        JsonV::Int(self.offset as int),
                    ).insert("type"@, JsonV::Text(self.eip_type.spelling())),
                    "bit"@,
                    bit_of(self.bit),
                ),
                "arrayCount"@,
                count_of(self.array_count),
            ),
            "slot"@,
            bit_of(slot),
        )
    }

    /// Where a field lives.
    pub fn address_json(&self, assembly: u16, slot: Option<u8>) -> (j: Json)
        ensures
            j@ == JsonV::Object(self.address(assembly, slot)),
    {
        let mut o = Object::new();
        o.insert("assembly", Json::of_u64(assembly as u64));
        o.insert("offset", Json::of_u64(self.offset as u64));
        o.insert("type", Json::of_text(self.eip_type.wire()));
        if let Some(b) = self.bit {
            o.insert("bit", Json::of_u64(b as u64));
        }
        if let Some(n) = self.array_count {
            o.insert("arrayCount", Json::of_u64(n as u64));
        }
        if let Some(n) = slot {
            o.insert("slot", Json::of_u64(n as u64));
        }
        Json::of_object(o)
    }
}

/// The distinct ids of the first `n` fields, in the order they first occur.
pub open spec fn ids_among(fields: Seq<IoFieldSpec>, assembly: u16, n: nat) -> Seq<Seq<char>>
    decreases n,
{
    if n == 0 {
        Seq::empty()
    } else {
        let before = ids_among(fields, assembly, (n - 1) as nat);
        let id = fields[n - 1].stable_id(assembly);
        if before.contains(id) {
            before
        } else {
            before.push(id)
        }
    }
}

/// Whether a list of texts holds one.
pub fn holds_text(list: &Vec<String>, text: &str) -> (r: bool)
    ensures
        r == texts(list@).contains(text@),
{
    let wanted = text.to_owned();
    let mut i: usize = 0;
    while i < list.len()
        invariant
            i <= list@.len(),
            wanted@ == text@,
            forall|j: int| 0 <= j < i ==> (#[trigger] list@[j])@ != text@,
        decreases list@.len() - i,
    {
        if list[i] == wanted {
            assert(texts(list@)[i as int] == text@);
            return true;
        }
        i = i + 1;
    }
    assert forall|j: int| 0 <= j < texts(list@).len() implies texts(list@)[j] != text@ by {
        assert(list@[j]@ != text@);
    }
    false
}

impl IoConfig {
    /// The ids of the input fields.
    pub open spec fn input_ids(self) -> Seq<Seq<char>> {
        ids_among(self.input_fields@, self.input_assembly, self.input_fields@.len())
    }

    /// The distinct ids of the input fields, in the order they first occur.
    pub fn field_ids(&self) -> (r: Vec<String>)
        ensures
            texts(r@) == self.input_ids(),
    {
        let mut out: Vec<String> = Vec::new();
        assert(texts(out@) =~= Seq::<Seq<char>>::empty());
        let mut i: usize = 0;
        while i < self.input_fields.len()
            invariant
                i <= self.input_fields@.len(),
                texts(out@) == ids_among(self.input_fields@, self.input_assembly, i as nat),
            decreases self.input_fields@.len() - i,
        {
            let id = self.input_fields[i].signal_id(self.input_assembly);
            if !holds_text(&out, id.as_str()) {
                let ghost had = out@;
                out.push(id);
                assert(texts(out@) =~= texts(had).push(id@));
            }
            i = i + 1;
        }
        out
    }

    /// The last input field of an id, by its place.
    pub open spec fn field_at(self, id: Seq<char>, n: nat) -> Option<int>
        decreases n,
    {
        if n == 0 {
            None
        } else if self.input_fields@[n - 1].stable_id(self.input_assembly) == id {
            Some(n - 1)
        } else {
            self.field_at(id, (n - 1) as nat)
        }
    }

    /// The last input field of an id, by its place.
    pub fn find_field(&self, id: &str) -> (r: Option<usize>)
        ensures
            match r {
                Some(i) => self.field_at(id@, self.input_fields@.len()) == Some(i as int),
                None => self.field_at(id@, self.input_fields@.len()) is None,
            },
    {
        let wanted = id.to_owned();
        let mut n: usize = self.input_fields.len();
        while n > 0
            invariant
                n <= self.input_fields@.len(),
                wanted@ == id@,
                self.field_at(id@, self.input_fields@.len()) == self.field_at(id@, n as nat),
            decreases n,
        {
            if self.input_fields[n - 1].signal_id(self.input_assembly) == wanted {
                return Some(n - 1);
            }
            n = n - 1;
        }
        None
    }
}

// ---- what holds of every configuration ----

/// A setting is taken from the nearest place that gives it: the group before the device, the device before
/// the component, and the built-in one only where none does.
pub proof fn the_nearest_setting_holds<T>(
    group: Option<T>,
    device: Option<T>,
    global: Option<T>,
    otherwise: T,
)
    ensures
        group is Some ==> Some(resolved(group, device, global, otherwise)) == group,
        group is None && device is Some ==> Some(resolved(group, device, global, otherwise)) == device,
        group is None && device is None && global is Some ==> Some(
            resolved(group, device, global, otherwise),
        ) == global,
        group is None && device is None && global is None ==> resolved(group, device, global, otherwise)
            == otherwise,
{
}

/// A push device publishes as it says itself, else as the component says, else on change; its window is
/// found in the same way, and there is none where none is given.
pub proof fn a_device_setting_goes_before_the_components(device: Defaults, global: Defaults)
    ensures
        device.publish_mode is Some ==> Some(push_mode(device, global)) == device.publish_mode,
        device.publish_mode is None && global.publish_mode is Some ==> Some(push_mode(device, global))
            == global.publish_mode,
        device.publish_mode is None && global.publish_mode is None ==> push_mode(
            device,
            global,
        ) is OnChange,
        device.batch_ms is Some ==> Some(batch_window(device, global)) == device.batch_ms,
        device.batch_ms is None && global.batch_ms is Some ==> Some(batch_window(device, global))
            == global.batch_ms,
        device.batch_ms is None && global.batch_ms is None ==> batch_window(device, global) == 0,
{
}

/// A signal is accounted under the mode of the last group that has it, and under none where no group has.
pub proof fn the_last_group_of_a_signal_decides_its_mode(groups: Seq<PollGroup>, n: nat, id: Seq<char>) -> (at:
    int)
    requires
        n <= groups.len(),
    ensures
        match mode_among(groups, n, id) {
            None => forall|g: int, i: int|
                0 <= g < n && 0 <= i < groups[g].signals@.len() ==> (
                #[trigger] groups[g].signals@[i]).tag_path@ != id,
            Some(m) => {
                &&& 0 <= at < n
                &&& m == groups[at].publish_mode
                &&& exists|i: int|
                    0 <= i < groups[at].signals@.len() && (#[trigger] groups[at].signals@[i]).tag_path@
                        == id
                &&& forall|g: int, i: int|
                    at < g < n && 0 <= i < groups[g].signals@.len() ==> (
                    #[trigger] groups[g].signals@[i]).tag_path@ != id
            },
        },
    decreases n,
{
    if n == 0 {
        0
    } else if has_tag(groups[n - 1], id) {
        n - 1
    } else {
        let at = the_last_group_of_a_signal_decides_its_mode(groups, (n - 1) as nat, id);
        assert forall|i: int| 0 <= i < groups[n - 1].signals@.len() implies (
        #[trigger] groups[n - 1].signals@[i]).tag_path@ != id by {}
        at
    }
}

/// The ids of the signals are those of the groups, one group behind the other, each in its own order, and
/// none is left out.
pub proof fn every_signal_of_every_group_is_listed(groups: Seq<PollGroup>, n: nat, g: int, i: int)
    requires
        n <= groups.len(),
        0 <= g < n,
        0 <= i < groups[g].signals@.len(),
    ensures
        ({
            let before = tags_among(groups, g as nat).len();
            &&& before + i < tags_among(groups, n).len()
            &&& tags_among(groups, n)[before + i] == groups[g].signals@[i].tag_path@
        }),
        tags_among(groups, 0).len() == 0,
        tags_among(groups, n).len() == tags_among(groups, (n - 1) as nat).len() + groups[n
            - 1].signals@.len(),
    decreases n,
{
    if g < n - 1 {
        every_signal_of_every_group_is_listed(groups, (n - 1) as nat, g, i);
    }
}

/// A tag may be written exactly when the write list names it. The entries that match no polled signal are
/// those, and only those, of the list.
pub proof fn a_write_list_permits_what_it_names(cfg: DeviceConfig, tag: Seq<char>)
    ensures
        cfg.may_write(tag) <==> exists|i: int|
            0 <= i < cfg.write_allow@.len() && (#[trigger] cfg.write_allow@[i])@ == tag,
        cfg.unmatched().contains(tag) <==> cfg.may_write(tag) && !cfg.tags().contains(tag),
        cfg.unmatched().len() <= cfg.write_allow@.len(),
{
    let entries = texts(cfg.write_allow@);
    if cfg.may_write(tag) {
        let i = choose|i: int| 0 <= i < entries.len() && entries[i] == tag;
        assert(cfg.write_allow@[i]@ == tag);
    }
    if exists|i: int| 0 <= i < cfg.write_allow@.len() && (#[trigger] cfg.write_allow@[i])@ == tag {
        let i = choose|i: int|
            0 <= i < cfg.write_allow@.len() && (#[trigger] cfg.write_allow@[i])@ == tag;
        assert(entries[i] == tag);
    }
    let tags = cfg.tags();
    let strange = |entry: Seq<char>| !tags.contains(entry);
    let kept = entries.filter(strange);
    entries.lemma_filter_len(strange);
    if kept.contains(tag) {
        entries.lemma_filter_contains_rev(strange, tag);
        let i = choose|i: int| 0 <= i < kept.len() && kept[i] == tag;
        entries.lemma_filter_pred(strange, i);
    }
    if entries.contains(tag) && strange(tag) {
        let i = choose|i: int| 0 <= i < entries.len() && entries[i] == tag;
        entries.lemma_filter_contains(strange, i);
    }
}

/// The ids of the input fields are told once each, in the order they first occur: every field's id is among
/// them, and each of them is that of a field.
pub proof fn every_field_id_is_told_once(fields: Seq<IoFieldSpec>, assembly: u16, n: nat)
    requires
        n <= fields.len(),
    ensures
        ids_among(fields, assembly, n).no_duplicates(),
        forall|i: int|
            0 <= i < n ==> ids_among(fields, assembly, n).contains(
                (#[trigger] fields[i]).stable_id(assembly),
            ),
        forall|k: int|
            0 <= k < ids_among(fields, assembly, n).len() ==> exists|i: int|
                0 <= i < n && (#[trigger] fields[i]).stable_id(assembly)
                    == #[trigger] ids_among(fields, assembly, n)[k],
        n > 0 ==> ids_among(fields, assembly, (n - 1) as nat).is_prefix_of(
            ids_among(fields, assembly, n),
        ),
    decreases n,
{
    if n > 0 {
        every_field_id_is_told_once(fields, assembly, (n - 1) as nat);
        let before = ids_among(fields, assembly, (n - 1) as nat);
        let now = ids_among(fields, assembly, n);
        let id = fields[n - 1].stable_id(assembly);
        assert(now.take(before.len() as int) =~= before);
        assert forall|i: int| 0 <= i < n implies now.contains(
            (#[trigger] fields[i]).stable_id(assembly),
        ) by {
            let one = fields[i].stable_id(assembly);
            if before.contains(one) {
                let k = choose|k: int| 0 <= k < before.len() && before[k] == one;
                assert(now[k] == one);
            } else {
                assert(one == id);
                assert(now[before.len() as int] == id);
            }
        }
        assert forall|k: int| 0 <= k < now.len() implies exists|i: int|
            0 <= i < n && (#[trigger] fields[i]).stable_id(assembly) == #[trigger] now[k] by {
            if k < before.len() {
                let i = choose|i: int|
                    0 <= i < n - 1 && (#[trigger] fields[i]).stable_id(assembly) == before[k];
                assert(fields[i].stable_id(assembly) == now[k]);
            } else {
                assert(fields[n - 1].stable_id(assembly) == now[k]);
            }
        }
        assert(now.no_duplicates()) by {
            if !before.contains(id) {
                assert forall|a: int, b: int|
                    0 <= a < now.len() && 0 <= b < now.len() && a != b implies now[a] != now[b] by {
                    if a < before.len() && b < before.len() {
                        assert(before[a] != before[b]);
                    } else if a < before.len() {
                        assert(before.contains(before[a]));
                    } else {
                        assert(before.contains(before[b]));
                    }
                }
            }
        }
    }
}

/// An id names the last input field that has it, and none only where no field has.
pub proof fn an_id_names_its_last_field(io: IoConfig, id: Seq<char>, n: nat)
    requires
        n <= io.input_fields@.len(),
    ensures
        match io.field_at(id, n) {
            Some(at) => {
                &&& 0 <= at < n
                &&& io.input_fields@[at].stable_id(io.input_assembly) == id
                &&& forall|i: int|
                    at < i < n ==> (#[trigger] io.input_fields@[i]).stable_id(io.input_assembly) != id
            },
            None => forall|i: int|
                0 <= i < n ==> (#[trigger] io.input_fields@[i]).stable_id(io.input_assembly) != id,
        },
    decreases n,
{
    if n > 0 && io.input_fields@[n - 1].stable_id(io.input_assembly) != id {
        an_id_names_its_last_field(io, id, (n - 1) as nat);
    }
}

/// Where a signal lives is told by its tag and type, and by how many elements and in which slot where that
/// is configured, and by nothing else.
pub proof fn an_address_says_what_is_configured(s: SignalSpec, slot: Option<u8>)
    ensures
        ({
            let a = s.address(slot);
            &&& a["tagPath"@] == JsonV::Text(s.tag_path@)
            &&& a["type"@] == JsonV::Text(s.eip_type.spelling())
            &&& a.dom().contains("arrayCount"@) <==> s.array_count is Some
            &&& s.array_count matches Some(n) ==> a["arrayCount"@] == JsonV::Int(n as int)
            &&& a.dom().contains("slot"@) <==> slot is Some
            &&& slot matches Some(n) ==> a["slot"@] == JsonV::Int(n as int)
        }),
{
    reveal_strlit("tagPath");
    reveal_strlit("type");
    reveal_strlit("arrayCount");
    reveal_strlit("slot");
    assert("tagPath"@.len() == 7 && "type"@.len() == 4 && "arrayCount"@.len() == 10);
    assert("slot"@.len() == 4 && "slot"@[0] != "type"@[0]);
}

/// Where a field lives is told by its assembly, its offset and its type, and by its bit, how many elements
/// and the slot where that is configured.
pub proof fn a_field_address_says_what_is_configured(f: IoFieldSpec, assembly: u16, slot: Option<u8>)
    ensures
        ({
            let a = f.address(assembly, slot);
            &&& a["assembly"@] == JsonV::Int(assembly as int)
            &&& a["offset"@] == JsonV::Int(f.offset as int)
            &&& a["type"@] == JsonV::Text(f.eip_type.spelling())
            &&& a.dom().contains("bit"@) <==> f.bit is Some
            &&& f.bit matches Some(b) ==> a["bit"@] == JsonV::Int(b as int)
            &&& a.dom().contains("arrayCount"@) <==> f.array_count is Some
            &&& f.array_count matches Some(n) ==> a["arrayCount"@] == JsonV::Int(n as int)
            &&& a.dom().contains("slot"@) <==> slot is Some
            &&& slot matches Some(n) ==> a["slot"@] == JsonV::Int(n as int)
        }),
{
    reveal_strlit("assembly");
    reveal_strlit("offset");
    reveal_strlit("type");
    reveal_strlit("bit");
    reveal_strlit("arrayCount");
    reveal_strlit("slot");
    assert("assembly"@.len() == 8 && "offset"@.len() == 6 && "type"@.len() == 4);
    assert("bit"@.len() == 3 && "arrayCount"@.len() == 10 && "slot"@.len() == 4);
    assert("slot"@[0] != "type"@[0]);
}

/// The id of a field holds its assembly, its offset, its type and its bit, each behind its own mark, and
/// says nothing of a bit that there is not.
pub proof fn a_field_id_holds_where_the_field_lives(f: IoFieldSpec, assembly: u16)
    ensures
        f.bit is None ==> f.stable_id(assembly) == "a"@ + decimal_nat(assembly as nat) + "/"@
            + decimal_nat(f.offset as nat) + "/"@ + f.eip_type.spelling(),
        f.bit matches Some(b) ==> f.stable_id(assembly) == "a"@ + decimal_nat(assembly as nat) + "/"@
            + decimal_nat(f.offset as nat) + "/"@ + f.eip_type.spelling() + "."@ + decimal_nat(b as nat),
{
}

/// No two types are spelled alike.
pub proof fn every_type_has_its_own_spelling(a: EipType, b: EipType)
    ensures
        a.spelling() == b.spelling() <==> a == b,
{
    reveal_strlit("bool");
    reveal_strlit("sint");
    reveal_strlit("usint");
    reveal_strlit("int");
    reveal_strlit("uint");
    reveal_strlit("dint");
    reveal_strlit("udint");
    reveal_strlit("lint");
    reveal_strlit("ulint");
    reveal_strlit("real");
    reveal_strlit("lreal");
    assert("int"@.len() == 3 && "bool"@.len() == 4 && "sint"@.len() == 4 && "uint"@.len() == 4);
    assert("dint"@.len() == 4 && "lint"@.len() == 4 && "real"@.len() == 4);
    assert("usint"@.len() == 5 && "udint"@.len() == 5 && "ulint"@.len() == 5 && "lreal"@.len() == 5);
    assert("bool"@[0] == 'b' && "sint"@[0] == 's' && "uint"@[0] == 'u' && "dint"@[0] == 'd');
    assert("lint"@[0] == 'l' && "real"@[0] == 'r' && "lreal"@[1] == 'r' && "usint"@[1] == 's');
    assert("udint"@[1] == 'd' && "ulint"@[1] == 'l');
}

} // verus!
