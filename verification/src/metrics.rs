//! The metric families: what they are called, what they count, and what each emit carries.
//!
//! Every counter is a pair of measures: a total that only grows, and an interval that starts again at
//! zero with each emit.

use vstd::prelude::*;

use crate::text::{join2, owned, texts};

verus! {

pub const HEALTH: &'static str = "southbound_health";

pub const CONNECTION: &'static str = "EtherNetIpConnection";

pub const INVENTORY: &'static str = "EtherNetIpInventory";

pub const POLL: &'static str = "EtherNetIpPoll";

pub const PUBLISH: &'static str = "EtherNetIpPublish";

pub const COMMAND: &'static str = "EtherNetIpCommand";

pub const IO: &'static str = "EtherNetIpIo";

pub const UNIT_COUNT: &'static str = "Count";

pub const UNIT_MS: &'static str = "Milliseconds";

/// What came of an operation.
#[derive(Clone, Copy, Debug, PartialEq, Eq, Structural)]
pub enum Outcome {
    Success,
    Error,
}

impl Outcome {
    pub open spec fn token(self) -> Seq<char> {
        match self {
            Outcome::Success => "success"@,
            Outcome::Error => "error"@,
        }
    }

    /// The dimension value.
    pub fn as_str(self) -> (s: &'static str)
        ensures
            s@ == self.token(),
    {
        match self {
            Outcome::Success => "success",
            Outcome::Error => "error",
        }
    }
}

/// The commands that are counted.
#[derive(Clone, Copy, Debug, PartialEq, Eq, Structural)]
pub enum Verb {
    Status,
    Read,
    Write,
    Signals,
    Browse,
    Pause,
    Resume,
    Reconnect,
    Repoll,
}

impl Verb {
    pub open spec fn token(self) -> Seq<char> {
        match self {
            Verb::Status => "sb/status"@,
            Verb::Read => "sb/read"@,
            Verb::Write => "sb/write"@,
            Verb::Signals => "sb/signals"@,
            Verb::Browse => "sb/browse"@,
            Verb::Pause => "sb/pause"@,
            Verb::Resume => "sb/resume"@,
            Verb::Reconnect => "reconnect"@,
            Verb::Repoll => "repoll"@,
        }
    }

    /// The dimension value.
    pub fn as_str(self) -> (s: &'static str)
        ensures
            s@ == self.token(),
    {
        match self {
            Verb::Status => "sb/status",
            Verb::Read => "sb/read",
            Verb::Write => "sb/write",
            Verb::Signals => "sb/signals",
            Verb::Browse => "sb/browse",
            Verb::Pause => "sb/pause",
            Verb::Resume => "sb/resume",
            Verb::Reconnect => "reconnect",
            Verb::Repoll => "repoll",
        }
    }
}

/// Every counted command, in the order they are defined.
pub open spec fn all_verbs() -> Seq<Verb> {
    seq![
        Verb::Status,
        Verb::Read,
        Verb::Write,
        Verb::Signals,
        Verb::Browse,
        Verb::Pause,
        Verb::Resume,
        Verb::Reconnect,
        Verb::Repoll,
    ]
}

/// Every counted command, in the order they are defined.
pub fn command_verbs() -> (r: Vec<Verb>)
    ensures
        r@ == all_verbs(),
{
    let r = vec![
        Verb::Status,
        Verb::Read,
        Verb::Write,
        Verb::Signals,
        Verb::Browse,
        Verb::Pause,
        Verb::Resume,
        Verb::Reconnect,
        Verb::Repoll,
    ];
    assert(r@ =~= all_verbs());
    r
}

/// What a command adds to its row.
#[derive(Clone, Copy, Debug, PartialEq, Eq, Structural)]
pub struct CommandTally {
    pub read_signals: u64,
    pub write_signals: u64,
    pub write_failures: u64,
    pub browsed_tags: u64,
}

impl Default for CommandTally {
    fn default() -> (r: CommandTally)
        ensures
            r == (CommandTally {
                read_signals: 0,
                write_signals: 0,
                write_failures: 0,
                browsed_tags: 0,
            }),
    {
        CommandTally { read_signals: 0, write_signals: 0, write_failures: 0, browsed_tags: 0 }
    }
}

// ---- the definitions ----

/// One measure of a family: its name, unit and storage resolution.
#[derive(Clone, Debug, PartialEq, Eq)]
pub struct MeasureDef {
    pub name: String,
    pub unit: String,
    pub res: u32,
}

/// One family: its name, its dimension keys and its measures.
#[derive(Clone, Debug, PartialEq, Eq)]
pub struct FamilyDef {
    pub name: String,
    pub dimensions: Vec<String>,
    pub measures: Vec<MeasureDef>,
}

/// One measure of a family.
pub struct MeasureDefV {
    pub name: Seq<char>,
    pub unit: Seq<char>,
    pub res: u32,
}

/// One family.
pub struct FamilyDefV {
    pub name: Seq<char>,
    pub dimensions: Seq<Seq<char>>,
    pub measures: Seq<MeasureDefV>,
}

impl View for MeasureDef {
    type V = MeasureDefV;

    open spec fn view(&self) -> MeasureDefV {
        MeasureDefV { name: self.name@, unit: self.unit@, res: self.res }
    }
}

/// The measures of a list, in order.
pub open spec fn measure_defs(s: Seq<MeasureDef>) -> Seq<MeasureDefV> {
    Seq::new(s.len(), |i: int| s[i]@)
}

impl View for FamilyDef {
    type V = FamilyDefV;

    open spec fn view(&self) -> FamilyDefV {
        FamilyDefV {
            name: self.name@,
            dimensions: texts(self.dimensions@),
            measures: measure_defs(self.measures@),
        }
    }
}

/// The families of a list, in order.
pub open spec fn family_list(s: Seq<FamilyDef>) -> Seq<FamilyDefV> {
    Seq::new(s.len(), |i: int| s[i]@)
}

pub open spec fn gauge(name: Seq<char>, unit: Seq<char>, res: u32) -> Seq<MeasureDefV> {
    seq![MeasureDefV { name, unit, res }]
}

/// A counter: a total and an interval.
pub open spec fn counter(prefix: Seq<char>) -> Seq<MeasureDefV> {
    seq![
        MeasureDefV { name: prefix + "Total"@, unit: UNIT_COUNT@, res: 60 },
        MeasureDefV { name: prefix + "Interval"@, unit: UNIT_COUNT@, res: 60 },
    ]
}

pub open spec fn health_family() -> FamilyDefV {
    FamilyDefV {
        name: HEALTH@,
        dimensions: seq!["instance"@],
        measures: gauge("connectionState"@, UNIT_COUNT@, 1) + gauge("paused"@, UNIT_COUNT@, 1) + gauge(
            "pollLatencyMs"@,
            UNIT_MS@,
            1,
        ) + gauge("publishLatencyMs"@, UNIT_MS@, 1) + gauge("readErrors"@, UNIT_COUNT@, 60) + gauge(
            "writeErrors"@,
            UNIT_COUNT@,
            60,
        ) + gauge("staleSignals"@, UNIT_COUNT@, 60) + gauge("reconnects"@, UNIT_COUNT@, 60),
    }
}

pub open spec fn connection_family() -> FamilyDefV {
    FamilyDefV {
        name: CONNECTION@,
        dimensions: seq!["instance"@, "connectionMode"@],
        measures: gauge("sessionConnected"@, UNIT_COUNT@, 1) + counter("connectAttempts"@) + counter(
            "connectFailures"@,
        ) + counter("connectionDrops"@) + counter("reconnects"@) + counter("tlsHandshakeFailures"@)
            + gauge("connectLatencyMs"@, UNIT_MS@, 60) + gauge("connectedDurationMs"@, UNIT_MS@, 60),
    }
}

pub open spec fn inventory_family() -> FamilyDefV {
    FamilyDefV {
        name: INVENTORY@,
        dimensions: seq!["instance"@, "pollGroup"@],
        measures: gauge("configuredSignals"@, UNIT_COUNT@, 60) + gauge(
            "arraySignals"@,
            UNIT_COUNT@,
            60,
        ) + gauge("writableSignals"@, UNIT_COUNT@, 60) + gauge(
            "configuredPollIntervalMs"@,
            UNIT_MS@,
            60,
        ) + gauge("requestsPerCycle"@, UNIT_COUNT@, 60),
    }
}

pub open spec fn poll_family() -> FamilyDefV {
    FamilyDefV {
        name: POLL@,
        dimensions: seq!["instance"@, "pollGroup"@, "result"@],
        measures: counter("pollCycles"@) + gauge("pollDurationMs"@, UNIT_MS@, 60) + counter("tagReads"@)
            + counter("tagReadErrors"@) + counter("samplesGood"@) + counter("samplesBad"@) + counter(
            "samplesUncertain"@,
        ) + counter("samplesChanged"@) + counter("samplesSuppressed"@) + counter("pollOverruns"@),
    }
}

pub open spec fn publish_family() -> FamilyDefV {
    FamilyDefV {
        name: PUBLISH@,
        dimensions: seq!["instance"@, "publishMode"@],
        measures: counter("dataMessagesPublished"@) + counter("samplesPublished"@) + counter(
            "publishFailures"@,
        ) + counter("batchFlushes"@) + gauge("batchSize"@, UNIT_COUNT@, 60) + gauge(
            "publishLatencyMs"@,
            UNIT_MS@,
            60,
        ),
    }
}

pub open spec fn command_family() -> FamilyDefV {
    FamilyDefV {
        name: COMMAND@,
        dimensions: seq!["instance"@, "verb"@, "result"@],
        measures: counter("commandRequests"@) + counter("commandErrors"@) + gauge(
            "commandLatencyMs"@,
            UNIT_MS@,
            60,
        ) + counter("readSignals"@) + counter("writeSignals"@) + counter("writeFailures"@) + counter(
            "browsedTags"@,
        ) + counter("pauseRequests"@) + counter("resumeRequests"@) + counter("reconnectRequests"@)
            + counter("repollRequests"@),
    }
}

pub open spec fn io_family() -> FamilyDefV {
    FamilyDefV {
        name: IO@,
        dimensions: seq!["instance"@],
        measures: gauge("ioConnectionState"@, UNIT_COUNT@, 1) + counter("forwardOpens"@) + counter(
            "forwardOpenFailures"@,
        ) + counter("framesConsumed"@) + counter("framesProduced"@) + counter("staleFramesDropped"@)
            + counter("sequenceGaps"@) + counter("sizeMismatchDropped"@) + counter("malformedFrames"@)
            + counter("ioTimeouts"@) + counter("produceOverruns"@) + gauge("interFrameMs"@, UNIT_MS@, 1)
            + gauge("runMode"@, UNIT_COUNT@, 1),
    }
}

/// Every family there is.
pub open spec fn all_families() -> Seq<FamilyDefV> {
    seq![
        health_family(),
        connection_family(),
        inventory_family(),
        poll_family(),
        publish_family(),
        command_family(),
        io_family(),
    ]
}

/// Append one gauge.
fn m(out: &mut Vec<MeasureDef>, name: &str, unit: &str, res: u32)
    ensures
        measure_defs(final(out)@) == measure_defs(old(out)@) + gauge(name@, unit@, res),
{
    let def = MeasureDef { name: owned(name), unit: owned(unit), res };
    out.push(def);
    assert(measure_defs(out@) =~= measure_defs(old(out)@) + gauge(name@, unit@, res));
}

/// Append one counter's total and interval.
fn pair(out: &mut Vec<MeasureDef>, prefix: &str)
    ensures
        measure_defs(final(out)@) == measure_defs(old(out)@) + counter(prefix@),
{
    let total = join2(prefix, "Total");
    let interval = join2(prefix, "Interval");
    m(out, total.as_str(), UNIT_COUNT, 60);
    m(out, interval.as_str(), UNIT_COUNT, 60);
    assert(measure_defs(out@) =~= measure_defs(old(out)@) + counter(prefix@));
}

fn dims1(a: &str) -> (r: Vec<String>)
    ensures
        texts(r@) == seq![a@],
{
    let mut r: Vec<String> = Vec::new();
    r.push(owned(a));
    assert(texts(r@) =~= seq![a@]);
    r
}

fn dims2(a: &str, b: &str) -> (r: Vec<String>)
    ensures
        texts(r@) == seq![a@, b@],
{
    let mut r: Vec<String> = Vec::new();
    r.push(owned(a));
    r.push(owned(b));
    assert(texts(r@) =~= seq![a@, b@]);
    r
}

fn dims3(a: &str, b: &str, c: &str) -> (r: Vec<String>)
    ensures
        texts(r@) == seq![a@, b@, c@],
{
    let mut r: Vec<String> = Vec::new();
    r.push(owned(a));
    r.push(owned(b));
    r.push(owned(c));
    assert(texts(r@) =~= seq![a@, b@, c@]);
    r
}

fn no_measures() -> (r: Vec<MeasureDef>)
    ensures
        measure_defs(r@) == Seq::<MeasureDefV>::empty(),
{
    let r: Vec<MeasureDef> = Vec::new();
    assert(measure_defs(r@) =~= Seq::<MeasureDefV>::empty());
    r
}

fn health_def() -> (r: FamilyDef)
    ensures
        r@ == health_family(),
{
    let mut ms = no_measures();
    m(&mut ms, "connectionState", UNIT_COUNT, 1);
    m(&mut ms, "paused", UNIT_COUNT, 1);
    m(&mut ms, "pollLatencyMs", UNIT_MS, 1);
    m(&mut ms, "publishLatencyMs", UNIT_MS, 1);
    m(&mut ms, "readErrors", UNIT_COUNT, 60);
    m(&mut ms, "writeErrors", UNIT_COUNT, 60);
    m(&mut ms, "staleSignals", UNIT_COUNT, 60);
    m(&mut ms, "reconnects", UNIT_COUNT, 60);
    assert(measure_defs(ms@) =~= health_family().measures);
    FamilyDef { name: owned(HEALTH), dimensions: dims1("instance"), measures: ms }
}

fn connection_def() -> (r: FamilyDef)
    ensures
        r@ == connection_family(),
{
    let mut ms = no_measures();
    m(&mut ms, "sessionConnected", UNIT_COUNT, 1);
    pair(&mut ms, "connectAttempts");
    pair(&mut ms, "connectFailures");
    pair(&mut ms, "connectionDrops");
    pair(&mut ms, "reconnects");
    pair(&mut ms, "tlsHandshakeFailures");
    m(&mut ms, "connectLatencyMs", UNIT_MS, 60);
    m(&mut ms, "connectedDurationMs", UNIT_MS, 60);
    assert(measure_defs(ms@) =~= connection_family().measures);
    FamilyDef {
        name: owned(CONNECTION),
        dimensions: dims2("instance", "connectionMode"),
        measures: ms,
    }
}

fn inventory_def() -> (r: FamilyDef)
    ensures
        r@ == inventory_family(),
{
    let mut ms = no_measures();
    m(&mut ms, "configuredSignals", UNIT_COUNT, 60);
    m(&mut ms, "arraySignals", UNIT_COUNT, 60);
    m(&mut ms, "writableSignals", UNIT_COUNT, 60);
    m(&mut ms, "configuredPollIntervalMs", UNIT_MS, 60);
    m(&mut ms, "requestsPerCycle", UNIT_COUNT, 60);
    assert(measure_defs(ms@) =~= inventory_family().measures);
    FamilyDef { name: owned(INVENTORY), dimensions: dims2("instance", "pollGroup"), measures: ms }
}

fn poll_def() -> (r: FamilyDef)
    ensures
        r@ == poll_family(),
{
    let mut ms = no_measures();
    pair(&mut ms, "pollCycles");
    m(&mut ms, "pollDurationMs", UNIT_MS, 60);
    pair(&mut ms, "tagReads");
    pair(&mut ms, "tagReadErrors");
    pair(&mut ms, "samplesGood");
    pair(&mut ms, "samplesBad");
    pair(&mut ms, "samplesUncertain");
    pair(&mut ms, "samplesChanged");
    pair(&mut ms, "samplesSuppressed");
    pair(&mut ms, "pollOverruns");
    assert(measure_defs(ms@) =~= poll_family().measures);
    FamilyDef { name: owned(POLL), dimensions: dims3("instance", "pollGroup", "result"), measures: ms }
}

fn publish_def() -> (r: FamilyDef)
    ensures
        r@ == publish_family(),
{
    let mut ms = no_measures();
    pair(&mut ms, "dataMessagesPublished");
    pair(&mut ms, "samplesPublished");
    pair(&mut ms, "publishFailures");
    pair(&mut ms, "batchFlushes");
    m(&mut ms, "batchSize", UNIT_COUNT, 60);
    m(&mut ms, "publishLatencyMs", UNIT_MS, 60);
    assert(measure_defs(ms@) =~= publish_family().measures);
    FamilyDef { name: owned(PUBLISH), dimensions: dims2("instance", "publishMode"), measures: ms }
}

fn command_def() -> (r: FamilyDef)
    ensures
        r@ == command_family(),
{
    let mut ms = no_measures();
    pair(&mut ms, "commandRequests");
    pair(&mut ms, "commandErrors");
    m(&mut ms, "commandLatencyMs", UNIT_MS, 60);
    pair(&mut ms, "readSignals");
    pair(&mut ms, "writeSignals");
    pair(&mut ms, "writeFailures");
    pair(&mut ms, "browsedTags");
    pair(&mut ms, "pauseRequests");
    pair(&mut ms, "resumeRequests");
    pair(&mut ms, "reconnectRequests");
    pair(&mut ms, "repollRequests");
    assert(measure_defs(ms@) =~= command_family().measures);
    FamilyDef { name: owned(COMMAND), dimensions: dims3("instance", "verb", "result"), measures: ms }
}

fn io_def() -> (r: FamilyDef)
    ensures
        r@ == io_family(),
{
    let mut ms = no_measures();
    m(&mut ms, "ioConnectionState", UNIT_COUNT, 1);
    pair(&mut ms, "forwardOpens");
    pair(&mut ms, "forwardOpenFailures");
    pair(&mut ms, "framesConsumed");
    pair(&mut ms, "framesProduced");
    pair(&mut ms, "staleFramesDropped");
    pair(&mut ms, "sequenceGaps");
    pair(&mut ms, "sizeMismatchDropped");
    pair(&mut ms, "malformedFrames");
    pair(&mut ms, "ioTimeouts");
    pair(&mut ms, "produceOverruns");
    m(&mut ms, "interFrameMs", UNIT_MS, 1);
    m(&mut ms, "runMode", UNIT_COUNT, 1);
    assert(measure_defs(ms@) =~= io_family().measures);
    FamilyDef { name: owned(IO), dimensions: dims1("instance"), measures: ms }
}

/// Every family, every measure, every dimension key.
pub fn family_defs() -> (out: Vec<FamilyDef>)
    ensures
        family_list(out@) == all_families(),
{
    let mut out: Vec<FamilyDef> = Vec::new();
    out.push(health_def());
    out.push(connection_def());
    out.push(inventory_def());
    out.push(poll_def());
    out.push(publish_def());
    out.push(command_def());
    out.push(io_def());
    assert(family_list(out@) =~= all_families());
    out
}

/// The families, as a value.
#[derive(Clone, Copy, Debug, PartialEq, Eq, Structural)]
pub enum Family {
    Health,
    Connection,
    Inventory,
    Poll,
    Publish,
    Command,
    Io,
}

impl Family {
    pub open spec fn definition(self) -> FamilyDefV {
        match self {
            Family::Health => health_family(),
            Family::Connection => connection_family(),
            Family::Inventory => inventory_family(),
            Family::Poll => poll_family(),
            Family::Publish => publish_family(),
            Family::Command => command_family(),
            Family::Io => io_family(),
        }
    }
}

/// The definition of one family.
pub fn family_def(family: Family) -> (r: FamilyDef)
    ensures
        r@ == family.definition(),
{
    match family {
        Family::Health => health_def(),
        Family::Connection => connection_def(),
        Family::Inventory => inventory_def(),
        Family::Poll => poll_def(),
        Family::Publish => publish_def(),
        Family::Command => command_def(),
        Family::Io => io_def(),
    }
}

// ---- what the families define ----

/// Whether a name ends in `Ms`.
pub open spec fn ends_in_ms(name: Seq<char>) -> bool {
    name.len() >= 2 && name[name.len() - 1] == 's' && name[name.len() - 2] == 'M'
}

spec fn fits(m: MeasureDefV) -> bool {
    &&& m.unit == (if ends_in_ms(m.name) {
        UNIT_MS@
    } else {
        UNIT_COUNT@
    })
    &&& m.res == 1 || m.res == 60
}

spec fn all_fit(s: Seq<MeasureDefV>) -> bool {
    forall|i: int| 0 <= i < s.len() ==> fits(#[trigger] s[i])
}

proof fn lemma_counter_fits(prefix: Seq<char>)
    ensures
        all_fit(counter(prefix)),
{
    reveal_strlit("Total");
    reveal_strlit("Interval");
    let c = counter(prefix);
    assert(c[0].name[c[0].name.len() - 1] == 'l');
    assert(c[1].name[c[1].name.len() - 1] == 'l');
}

proof fn lemma_both_fit(a: Seq<MeasureDefV>, b: Seq<MeasureDefV>)
    requires
        all_fit(a),
        all_fit(b),
    ensures
        all_fit(a + b),
{
    let s = a + b;
    assert forall|i: int| 0 <= i < s.len() implies fits(#[trigger] s[i]) by {
        if i < a.len() {
            assert(s[i] == a[i]);
        } else {
            assert(s[i] == b[i - a.len()]);
        }
    }
}

proof fn lemma_health_fits()
    ensures
        all_fit(health_family().measures),
{
    reveal_strlit("connectionState");
    assert("connectionState"@[14] == 'e' && "connectionState"@[13] == 't');
    reveal_strlit("paused");
    assert("paused"@[5] == 'd' && "paused"@[4] == 'e');
    reveal_strlit("pollLatencyMs");
    assert("pollLatencyMs"@[12] == 's' && "pollLatencyMs"@[11] == 'M');
    reveal_strlit("publishLatencyMs");
    assert("publishLatencyMs"@[15] == 's' && "publishLatencyMs"@[14] == 'M');
    reveal_strlit("readErrors");
    assert("readErrors"@[9] == 's' && "readErrors"@[8] == 'r');
    reveal_strlit("writeErrors");
    assert("writeErrors"@[10] == 's' && "writeErrors"@[9] == 'r');
    reveal_strlit("staleSignals");
    assert("staleSignals"@[11] == 's' && "staleSignals"@[10] == 'l');
    reveal_strlit("reconnects");
    assert("reconnects"@[9] == 's' && "reconnects"@[8] == 't');
    let s0 = gauge("connectionState"@, UNIT_COUNT@, 1);
    let s1 = s0 + gauge("paused"@, UNIT_COUNT@, 1);
    lemma_both_fit(s0, gauge("paused"@, UNIT_COUNT@, 1));
    let s2 = s1 + gauge("pollLatencyMs"@, UNIT_MS@, 1);
    lemma_both_fit(s1, gauge("pollLatencyMs"@, UNIT_MS@, 1));
    let s3 = s2 + gauge("publishLatencyMs"@, UNIT_MS@, 1);
    lemma_both_fit(s2, gauge("publishLatencyMs"@, UNIT_MS@, 1));
    let s4 = s3 + gauge("readErrors"@, UNIT_COUNT@, 60);
    lemma_both_fit(s3, gauge("readErrors"@, UNIT_COUNT@, 60));
    let s5 = s4 + gauge("writeErrors"@, UNIT_COUNT@, 60);
    lemma_both_fit(s4, gauge("writeErrors"@, UNIT_COUNT@, 60));
    let s6 = s5 + gauge("staleSignals"@, UNIT_COUNT@, 60);
    lemma_both_fit(s5, gauge("staleSignals"@, UNIT_COUNT@, 60));
    let s7 = s6 + gauge("reconnects"@, UNIT_COUNT@, 60);
    lemma_both_fit(s6, gauge("reconnects"@, UNIT_COUNT@, 60));
    assert(health_family().measures == s7);
}

proof fn lemma_connection_fits()
    ensures
        all_fit(connection_family().measures),
{
    reveal_strlit("sessionConnected");
    assert("sessionConnected"@[15] == 'd' && "sessionConnected"@[14] == 'e');
    reveal_strlit("connectLatencyMs");
    assert("connectLatencyMs"@[15] == 's' && "connectLatencyMs"@[14] == 'M');
    reveal_strlit("connectedDurationMs");
    assert("connectedDurationMs"@[18] == 's' && "connectedDurationMs"@[17] == 'M');
    lemma_counter_fits("connectAttempts"@);
    lemma_counter_fits("connectFailures"@);
    lemma_counter_fits("connectionDrops"@);
    lemma_counter_fits("reconnects"@);
    lemma_counter_fits("tlsHandshakeFailures"@);
    let s0 = gauge("sessionConnected"@, UNIT_COUNT@, 1);
    let s1 = s0 + counter("connectAttempts"@);
    lemma_both_fit(s0, counter("connectAttempts"@));
    let s2 = s1 + counter("connectFailures"@);
    lemma_both_fit(s1, counter("connectFailures"@));
    let s3 = s2 + counter("connectionDrops"@);
    lemma_both_fit(s2, counter("connectionDrops"@));
    let s4 = s3 + counter("reconnects"@);
    lemma_both_fit(s3, counter("reconnects"@));
    let s5 = s4 + counter("tlsHandshakeFailures"@);
    lemma_both_fit(s4, counter("tlsHandshakeFailures"@));
    let s6 = s5 + gauge("connectLatencyMs"@, UNIT_MS@, 60);
    lemma_both_fit(s5, gauge("connectLatencyMs"@, UNIT_MS@, 60));
    let s7 = s6 + gauge("connectedDurationMs"@, UNIT_MS@, 60);
    lemma_both_fit(s6, gauge("connectedDurationMs"@, UNIT_MS@, 60));
    assert(connection_family().measures == s7);
}

proof fn lemma_inventory_fits()
    ensures
        all_fit(inventory_family().measures),
{
    reveal_strlit("configuredSignals");
    assert("configuredSignals"@[16] == 's' && "configuredSignals"@[15] == 'l');
    reveal_strlit("arraySignals");
    assert("arraySignals"@[11] == 's' && "arraySignals"@[10] == 'l');
    reveal_strlit("writableSignals");
    assert("writableSignals"@[14] == 's' && "writableSignals"@[13] == 'l');
    reveal_strlit("configuredPollIntervalMs");
    assert("configuredPollIntervalMs"@[23] == 's' && "configuredPollIntervalMs"@[22] == 'M');
    reveal_strlit("requestsPerCycle");
    assert("requestsPerCycle"@[15] == 'e' && "requestsPerCycle"@[14] == 'l');
    let s0 = gauge("configuredSignals"@, UNIT_COUNT@, 60);
    let s1 = s0 + gauge("arraySignals"@, UNIT_COUNT@, 60);
    lemma_both_fit(s0, gauge("arraySignals"@, UNIT_COUNT@, 60));
    let s2 = s1 + gauge("writableSignals"@, UNIT_COUNT@, 60);
    lemma_both_fit(s1, gauge("writableSignals"@, UNIT_COUNT@, 60));
    let s3 = s2 + gauge("configuredPollIntervalMs"@, UNIT_MS@, 60);
    lemma_both_fit(s2, gauge("configuredPollIntervalMs"@, UNIT_MS@, 60));
    let s4 = s3 + gauge("requestsPerCycle"@, UNIT_COUNT@, 60);
    lemma_both_fit(s3, gauge("requestsPerCycle"@, UNIT_COUNT@, 60));
    assert(inventory_family().measures == s4);
}

proof fn lemma_poll_fits()
    ensures
        all_fit(poll_family().measures),
{
    reveal_strlit("pollDurationMs");
    assert("pollDurationMs"@[13] == 's' && "pollDurationMs"@[12] == 'M');
    lemma_counter_fits("pollCycles"@);
    lemma_counter_fits("tagReads"@);
    lemma_counter_fits("tagReadErrors"@);
    lemma_counter_fits("samplesGood"@);
    lemma_counter_fits("samplesBad"@);
    lemma_counter_fits("samplesUncertain"@);
    lemma_counter_fits("samplesChanged"@);
    lemma_counter_fits("samplesSuppressed"@);
    lemma_counter_fits("pollOverruns"@);
    let s0 = counter("pollCycles"@);
    let s1 = s0 + gauge("pollDurationMs"@, UNIT_MS@, 60);
    lemma_both_fit(s0, gauge("pollDurationMs"@, UNIT_MS@, 60));
    let s2 = s1 + counter("tagReads"@);
    lemma_both_fit(s1, counter("tagReads"@));
    let s3 = s2 + counter("tagReadErrors"@);
    lemma_both_fit(s2, counter("tagReadErrors"@));
    let s4 = s3 + counter("samplesGood"@);
    lemma_both_fit(s3, counter("samplesGood"@));
    let s5 = s4 + counter("samplesBad"@);
    lemma_both_fit(s4, counter("samplesBad"@));
    let s6 = s5 + counter("samplesUncertain"@);
    lemma_both_fit(s5, counter("samplesUncertain"@));
    let s7 = s6 + counter("samplesChanged"@);
    lemma_both_fit(s6, counter("samplesChanged"@));
    let s8 = s7 + counter("samplesSuppressed"@);
    lemma_both_fit(s7, counter("samplesSuppressed"@));
    let s9 = s8 + counter("pollOverruns"@);
    lemma_both_fit(s8, counter("pollOverruns"@));
    assert(poll_family().measures == s9);
}

proof fn lemma_publish_fits()
    ensures
        all_fit(publish_family().measures),
{
    reveal_strlit("batchSize");
    assert("batchSize"@[8] == 'e' && "batchSize"@[7] == 'z');
    reveal_strlit("publishLatencyMs");
    assert("publishLatencyMs"@[15] == 's' && "publishLatencyMs"@[14] == 'M');
    lemma_counter_fits("dataMessagesPublished"@);
    lemma_counter_fits("samplesPublished"@);
    lemma_counter_fits("publishFailures"@);
    lemma_counter_fits("batchFlushes"@);
    let s0 = counter("dataMessagesPublished"@);
    let s1 = s0 + counter("samplesPublished"@);
    lemma_both_fit(s0, counter("samplesPublished"@));
    let s2 = s1 + counter("publishFailures"@);
    lemma_both_fit(s1, counter("publishFailures"@));
    let s3 = s2 + counter("batchFlushes"@);
    lemma_both_fit(s2, counter("batchFlushes"@));
    let s4 = s3 + gauge("batchSize"@, UNIT_COUNT@, 60);
    lemma_both_fit(s3, gauge("batchSize"@, UNIT_COUNT@, 60));
    let s5 = s4 + gauge("publishLatencyMs"@, UNIT_MS@, 60);
    lemma_both_fit(s4, gauge("publishLatencyMs"@, UNIT_MS@, 60));
    assert(publish_family().measures == s5);
}

proof fn lemma_command_fits()
    ensures
        all_fit(command_family().measures),
{
    reveal_strlit("commandLatencyMs");
    assert("commandLatencyMs"@[15] == 's' && "commandLatencyMs"@[14] == 'M');
    lemma_counter_fits("commandRequests"@);
    lemma_counter_fits("commandErrors"@);
    lemma_counter_fits("readSignals"@);
    lemma_counter_fits("writeSignals"@);
    lemma_counter_fits("writeFailures"@);
    lemma_counter_fits("browsedTags"@);
    lemma_counter_fits("pauseRequests"@);
    lemma_counter_fits("resumeRequests"@);
    lemma_counter_fits("reconnectRequests"@);
    lemma_counter_fits("repollRequests"@);
    let s0 = counter("commandRequests"@);
    let s1 = s0 + counter("commandErrors"@);
    lemma_both_fit(s0, counter("commandErrors"@));
    let s2 = s1 + gauge("commandLatencyMs"@, UNIT_MS@, 60);
    lemma_both_fit(s1, gauge("commandLatencyMs"@, UNIT_MS@, 60));
    let s3 = s2 + counter("readSignals"@);
    lemma_both_fit(s2, counter("readSignals"@));
    let s4 = s3 + counter("writeSignals"@);
    lemma_both_fit(s3, counter("writeSignals"@));
    let s5 = s4 + counter("writeFailures"@);
    lemma_both_fit(s4, counter("writeFailures"@));
    let s6 = s5 + counter("browsedTags"@);
    lemma_both_fit(s5, counter("browsedTags"@));
    let s7 = s6 + counter("pauseRequests"@);
    lemma_both_fit(s6, counter("pauseRequests"@));
    let s8 = s7 + counter("resumeRequests"@);
    lemma_both_fit(s7, counter("resumeRequests"@));
    let s9 = s8 + counter("reconnectRequests"@);
    lemma_both_fit(s8, counter("reconnectRequests"@));
    let s10 = s9 + counter("repollRequests"@);
    lemma_both_fit(s9, counter("repollRequests"@));
    assert(command_family().measures == s10);
}

proof fn lemma_io_fits()
    ensures
        all_fit(io_family().measures),
{
    reveal_strlit("ioConnectionState");
    assert("ioConnectionState"@[16] == 'e' && "ioConnectionState"@[15] == 't');
    reveal_strlit("interFrameMs");
    assert("interFrameMs"@[11] == 's' && "interFrameMs"@[10] == 'M');
    reveal_strlit("runMode");
    assert("runMode"@[6] == 'e' && "runMode"@[5] == 'd');
    lemma_counter_fits("forwardOpens"@);
    lemma_counter_fits("forwardOpenFailures"@);
    lemma_counter_fits("framesConsumed"@);
    lemma_counter_fits("framesProduced"@);
    lemma_counter_fits("staleFramesDropped"@);
    lemma_counter_fits("sequenceGaps"@);
    lemma_counter_fits("sizeMismatchDropped"@);
    lemma_counter_fits("malformedFrames"@);
    lemma_counter_fits("ioTimeouts"@);
    lemma_counter_fits("produceOverruns"@);
    let s0 = gauge("ioConnectionState"@, UNIT_COUNT@, 1);
    let s1 = s0 + counter("forwardOpens"@);
    lemma_both_fit(s0, counter("forwardOpens"@));
    let s2 = s1 + counter("forwardOpenFailures"@);
    lemma_both_fit(s1, counter("forwardOpenFailures"@));
    let s3 = s2 + counter("framesConsumed"@);
    lemma_both_fit(s2, counter("framesConsumed"@));
    let s4 = s3 + counter("framesProduced"@);
    lemma_both_fit(s3, counter("framesProduced"@));
    let s5 = s4 + counter("staleFramesDropped"@);
    lemma_both_fit(s4, counter("staleFramesDropped"@));
    let s6 = s5 + counter("sequenceGaps"@);
    lemma_both_fit(s5, counter("sequenceGaps"@));
    let s7 = s6 + counter("sizeMismatchDropped"@);
    lemma_both_fit(s6, counter("sizeMismatchDropped"@));
    let s8 = s7 + counter("malformedFrames"@);
    lemma_both_fit(s7, counter("malformedFrames"@));
    let s9 = s8 + counter("ioTimeouts"@);
    lemma_both_fit(s8, counter("ioTimeouts"@));
    let s10 = s9 + counter("produceOverruns"@);
    lemma_both_fit(s9, counter("produceOverruns"@));
    let s11 = s10 + gauge("interFrameMs"@, UNIT_MS@, 1);
    lemma_both_fit(s10, gauge("interFrameMs"@, UNIT_MS@, 1));
    let s12 = s11 + gauge("runMode"@, UNIT_COUNT@, 1);
    lemma_both_fit(s11, gauge("runMode"@, UNIT_COUNT@, 1));
    assert(io_family().measures == s12);
}

/// A measure whose name ends in `Ms` is told in milliseconds, and every other one is a count; each is kept
/// by the second or by the minute.
pub proof fn a_measure_is_told_in_its_unit(family: Family, i: int)
    requires
        0 <= i < family.definition().measures.len(),
    ensures
        ({
            let m = family.definition().measures[i];
            &&& ends_in_ms(m.name) ==> m.unit == "Milliseconds"@
            &&& !ends_in_ms(m.name) ==> m.unit == "Count"@
            &&& m.res == 1 || m.res == 60
        }),
{
    lemma_health_fits();
    lemma_connection_fits();
    lemma_inventory_fits();
    lemma_poll_fits();
    lemma_publish_fits();
    lemma_command_fits();
    lemma_io_fits();
    assert(fits(family.definition().measures[i]));
}

/// A counter is two measures: a total and an interval, under one name, each a count and each kept by the
/// minute.
pub proof fn a_counter_is_a_total_and_an_interval(prefix: Seq<char>)
    ensures
        counter(prefix).len() == 2,
        counter(prefix)[0].name == prefix + "Total"@,
        counter(prefix)[1].name == prefix + "Interval"@,
        counter(prefix)[0].unit == "Count"@,
        counter(prefix)[1].unit == "Count"@,
        counter(prefix)[0].res == 60,
        counter(prefix)[1].res == 60,
{
}

/// Every family has a name of its own, tells the instance first, and is defined under the family it is
/// emitted as; the commands that are counted are all there are.
pub proof fn every_family_has_its_own_name(family: Family, verb: Verb)
    ensures
        family.definition().dimensions.len() > 0,
        family.definition().dimensions[0] == "instance"@,
        family.definition().name == (match family {
            Family::Health => "southbound_health"@,
            Family::Connection => "EtherNetIpConnection"@,
            Family::Inventory => "EtherNetIpInventory"@,
            Family::Poll => "EtherNetIpPoll"@,
            Family::Publish => "EtherNetIpPublish"@,
            Family::Command => "EtherNetIpCommand"@,
            Family::Io => "EtherNetIpIo"@,
        }),
        all_verbs().no_duplicates(),
        all_verbs().contains(verb),
{
    let verbs = all_verbs();
    assert(verbs[0] == verb || verbs[1] == verb || verbs[2] == verb || verbs[3] == verb || verbs[4]
        == verb || verbs[5] == verb || verbs[6] == verb || verbs[7] == verb || verbs[8] == verb);
}

} // verus!
