//! What the status command reports of a device.

use vstd::prelude::*;

use crate::counters::{add_up, sum, Pair};
use crate::device::{
    text_view, SecurityStatus, SecurityStatusV, TargetCertificateSummary, TargetCertificateV,
    TargetPostureV, TargetSecurityPosture,
};
use crate::device_metrics::{CmdRow, DeviceMetrics, PollRow};
use crate::eip::tls::{SecurityConfig, SecurityMode};
use crate::ieee::F64;
use crate::json::{lemma_meaning, text_list, Json, JsonV, Number, Object};

verus! {

/// Whether a value is the floating-point number of a count: exact up to `2^53`, otherwise the closest.
pub open spec fn is_count(v: JsonV, n: u64) -> bool {
    v matches JsonV::Float(bits) && F64 { bits }.counts(n)
}

/// Whether a value is a counter's interval and total.
pub open spec fn is_pair(v: JsonV, p: Pair) -> bool {
    exists|interval: JsonV, total: JsonV|
        #[trigger] is_count(interval, p.interval) && #[trigger] is_count(total, p.total) && v
            == JsonV::Object(
            Map::empty().insert("interval"@, interval).insert("total"@, total),
        )
}

fn count_json(n: u64) -> (j: Json)
    ensures
        is_count(j@, n),
{
    let f = F64::from_count(n);
    let j = Json::Number(Number::Float(f));
    proof {
        lemma_meaning(j);
    }
    j
}

fn pair_json(p: Pair) -> (j: Json)
    ensures
        is_pair(j@, p),
{
    let interval = count_json(p.interval);
    let total = count_json(p.total);
    let ghost iv = interval@;
    let ghost tv = total@;
    let mut o = Object::new();
    o.insert("interval", interval);
    o.insert("total", total);
    let j = Json::Object(o);
    proof {
        lemma_meaning(j);
        assert(is_count(iv, p.interval) && is_count(tv, p.total));
    }
    j
}

/// An optional text: the text, or null.
pub open spec fn text_or_null(s: Option<Seq<char>>) -> JsonV {
    match s {
        Some(t) => JsonV::Text(t),
        None => JsonV::Null,
    }
}

pub(crate) fn optional_text_json(s: &Option<String>) -> (j: Json)
    ensures
        j@ == text_or_null(text_view(*s)),
{
    match s {
        Some(t) => Json::of_text(t.as_str()),
        None => {
            let j = Json::Null;
            proof {
                lemma_meaning(j);
            }
            j
        },
    }
}

// ---- the counters ----

/// What the first `n` rows add up to, each counter at most `u64::MAX`.
pub open spec fn reads_among(rows: Seq<PollRow>, n: nat) -> Pair
    decreases n,
{
    if n == 0 {
        Pair::zero()
    } else {
        let p = reads_among(rows, (n - 1) as nat);
        let c = rows[n - 1].counters.tag_reads;
        Pair { total: sum(p.total, c.total), interval: sum(p.interval, c.interval) }
    }
}

/// What the first `n` rows add up to, each counter at most `u64::MAX`.
pub open spec fn read_errors_among(rows: Seq<PollRow>, n: nat) -> Pair
    decreases n,
{
    if n == 0 {
        Pair::zero()
    } else {
        let p = read_errors_among(rows, (n - 1) as nat);
        let c = rows[n - 1].counters.tag_read_errors;
        Pair { total: sum(p.total, c.total), interval: sum(p.interval, c.interval) }
    }
}

/// What the first `n` rows add up to, each counter at most `u64::MAX`.
pub open spec fn writes_among(rows: Seq<CmdRow>, n: nat) -> Pair
    decreases n,
{
    if n == 0 {
        Pair::zero()
    } else {
        let p = writes_among(rows, (n - 1) as nat);
        let c = rows[n - 1].counters.write_signals;
        Pair { total: sum(p.total, c.total), interval: sum(p.interval, c.interval) }
    }
}

impl DeviceMetrics {
    /// What counts as a read: a tag read, or on a push device an accepted frame.
    pub open spec fn reads(self) -> Pair {
        if self.is_push {
            self.io.frames_consumed
        } else {
            reads_among(self.poll@, self.poll@.len())
        }
    }

    /// What counts as a failed read: a failed tag read, or on a push device a timeout.
    pub open spec fn read_failures(self) -> Pair {
        if self.is_push {
            self.io.io_timeouts
        } else {
            read_errors_among(self.poll@, self.poll@.len())
        }
    }

    /// The signals that writes attempted.
    pub open spec fn writes(self) -> Pair {
        writes_among(self.command@, self.command@.len())
    }

    /// The reads, writes and read errors of a device, each with its interval and total.
    pub fn counters_view(&self) -> (j: Json)
        ensures
            exists|read: JsonV, write: JsonV, errors: JsonV|
                #[trigger] is_pair(read, self.reads()) && #[trigger] is_pair(write, self.writes())
                    && #[trigger] is_pair(errors, self.read_failures()) && j@ == JsonV::Object(
                    Map::empty().insert("read"@, read).insert("write"@, write).insert(
                        "readErrors"@,
                        errors,
                    ),
                ),
    {
        let mut reads = Pair::new();
        let mut errors = Pair::new();
        if self.is_push {
            reads = self.io.frames_consumed;
            errors = self.io.io_timeouts;
        } else {
            let mut i: usize = 0;
            while i < self.poll.len()
                invariant
                    i <= self.poll@.len(),
                    reads == reads_among(self.poll@, i as nat),
                    errors == read_errors_among(self.poll@, i as nat),
                decreases self.poll@.len() - i,
            {
                let c = self.poll[i].counters;
                reads = Pair {
                    total: add_up(reads.total, c.tag_reads.total),
                    interval: add_up(reads.interval, c.tag_reads.interval),
                };
                errors = Pair {
                    total: add_up(errors.total, c.tag_read_errors.total),
                    interval: add_up(errors.interval, c.tag_read_errors.interval),
                };
                i = i + 1;
            }
        }
        let mut writes = Pair::new();
        let mut i: usize = 0;
        while i < self.command.len()
            invariant
                i <= self.command@.len(),
                writes == writes_among(self.command@, i as nat),
            decreases self.command@.len() - i,
        {
            let c = self.command[i].counters;
            writes = Pair {
                total: add_up(writes.total, c.write_signals.total),
                interval: add_up(writes.interval, c.write_signals.interval),
            };
            i = i + 1;
        }
        let read_json = pair_json(reads);
        let write_json = pair_json(writes);
        let errors_json = pair_json(errors);
        let ghost rv = read_json@;
        let ghost wv = write_json@;
        let ghost ev = errors_json@;
        let mut o = Object::new();
        o.insert("read", read_json);
        o.insert("write", write_json);
        o.insert("readErrors", errors_json);
        let j = Json::Object(o);
        proof {
            lemma_meaning(j);
            assert(is_pair(rv, self.reads()) && is_pair(wv, self.writes()) && is_pair(
                ev,
                self.read_failures(),
            ));
        }
        j
    }

    /// The class-1 side of a push device: the negotiated intervals, run and peer run, and the frame
    /// counters.
    pub fn io_view(&self) -> (j: Json)
        ensures
            exists|consumed: JsonV, stale: JsonV, gaps: JsonV|
                #[trigger] is_pair(consumed, self.io.frames_consumed) && #[trigger] is_pair(
                    stale,
                    self.io.stale_frames_dropped,
                ) && #[trigger] is_pair(gaps, self.io.sequence_gaps) && j@ == JsonV::Object(
                    Map::empty().insert("o2tApiMs"@, JsonV::Int(self.io.o2t_api_ms as int)).insert(
                        "t2oApiMs"@,
                        JsonV::Int(self.io.t2o_api_ms as int),
                    ).insert("run"@, JsonV::Bool(self.produced_run)).insert(
                        "peerRun"@,
                        JsonV::Bool(self.io.run_mode),
                    ).insert("framesConsumed"@, consumed).insert("staleDropped"@, stale).insert(
                        "sequenceGaps"@,
                        gaps,
                    ),
                ),
    {
        let consumed = pair_json(self.io.frames_consumed);
        let stale = pair_json(self.io.stale_frames_dropped);
        let gaps = pair_json(self.io.sequence_gaps);
        let ghost cv = consumed@;
        let ghost sv = stale@;
        let ghost gv = gaps@;
        let mut o = Object::new();
        o.insert("o2tApiMs", Json::of_u64(self.io.o2t_api_ms as u64));
        o.insert("t2oApiMs", Json::of_u64(self.io.t2o_api_ms as u64));
        o.insert("run", Json::of_bool(self.produced_run));
        o.insert("peerRun", Json::of_bool(self.io.run_mode));
        o.insert("framesConsumed", consumed);
        o.insert("staleDropped", stale);
        o.insert("sequenceGaps", gaps);
        let j = Json::Object(o);
        proof {
            lemma_meaning(j);
            assert(is_pair(cv, self.io.frames_consumed) && is_pair(sv, self.io.stale_frames_dropped)
                && is_pair(gv, self.io.sequence_gaps));
        }
        j
    }
}

// ---- the security posture ----

/// A member that is there only when there is a value.
pub open spec fn with_bool(
    m: Map<Seq<char>, JsonV>,
    key: Seq<char>,
    v: Option<bool>,
) -> Map<Seq<char>, JsonV> {
    match v {
        Some(b) => m.insert(key, JsonV::Bool(b)),
        None => m,
    }
}

/// A member that is there only when there is a value.
pub open spec fn with_text(
    m: Map<Seq<char>, JsonV>,
    key: Seq<char>,
    v: Option<Seq<char>>,
) -> Map<Seq<char>, JsonV> {
    match v {
        Some(t) => m.insert(key, JsonV::Text(t)),
        None => m,
    }
}

fn put_bool(o: &mut Object, key: &str, v: Option<bool>)
    ensures
        final(o)@ == with_bool(old(o)@, key@, v),
{
    if let Some(b) = v {
        o.insert(key, Json::of_bool(b));
    }
}

fn put_text(o: &mut Object, key: &str, v: &Option<String>)
    ensures
        final(o)@ == with_text(old(o)@, key@, text_view(*v)),
{
    if let Some(t) = v {
        o.insert(key, Json::of_text(t.as_str()));
    }
}

/// The device's own certificate, as far as it is exposed.
pub open spec fn certificate_members(c: TargetCertificateV) -> Map<Seq<char>, JsonV> {
    with_text(
        with_text(
            with_text(
                with_bool(
                    with_bool(Map::empty(), "pushSupported"@, c.push_supported),
                    "pullSupported"@,
                    c.pull_supported,
                ),
                "name"@,
                c.name,
            ),
            "state"@,
            c.state,
        ),
        "encoding"@,
        c.encoding,
    )
}

/// The posture without the certificate: the lists are always there, the rest as far as it is decoded.
pub open spec fn posture_members(t: TargetPostureV) -> Map<Seq<char>, JsonV> {
    with_bool(
        with_bool(
            with_bool(
                with_text(Map::empty(), "state"@, t.state).insert(
                    "profiles"@,
                    text_list(t.profiles),
                ).insert("allowedCipherSuites"@, text_list(t.allowed_cipher_suites)).insert(
                    "availableCipherSuites"@,
                    text_list(t.available_cipher_suites),
                ),
                "verifyClient"@,
                t.verify_client,
            ),
            "sendCertificateChain"@,
            t.send_certificate_chain,
        ),
        "checkExpiration"@,
        t.check_expiration,
    )
}

/// The posture of a device. `pullModel` repeats whether certificates can be pulled.
pub open spec fn target_members(t: TargetPostureV) -> Map<Seq<char>, JsonV> {
    match t.certificate {
        Some(c) => with_bool(posture_members(t), "pullModel"@, c.pull_supported).insert(
            "certificate"@,
            JsonV::Object(certificate_members(c)),
        ),
        None => posture_members(t),
    }
}

fn certificate_json(c: &TargetCertificateSummary) -> (j: Json)
    ensures
        j@ == JsonV::Object(certificate_members(c@)),
{
    let mut o = Object::new();
    put_bool(&mut o, "pushSupported", c.push_supported);
    put_bool(&mut o, "pullSupported", c.pull_supported);
    put_text(&mut o, "name", &c.name);
    put_text(&mut o, "state", &c.state);
    put_text(&mut o, "encoding", &c.encoding);
    let j = Json::Object(o);
    proof {
        lemma_meaning(j);
    }
    j
}

/// The posture of a device. Lists are always there, possibly empty; anything else only when decoded.
pub fn security_target_view(t: &TargetSecurityPosture) -> (j: Json)
    ensures
        j@ == JsonV::Object(target_members(t@)),
{
    let mut o = Object::new();
    put_text(&mut o, "state", &t.state);
    o.insert("profiles", Json::of_texts(&t.profiles));
    o.insert("allowedCipherSuites", Json::of_texts(&t.allowed_cipher_suites));
    o.insert("availableCipherSuites", Json::of_texts(&t.available_cipher_suites));
    put_bool(&mut o, "verifyClient", t.verify_client);
    put_bool(&mut o, "sendCertificateChain", t.send_certificate_chain);
    put_bool(&mut o, "checkExpiration", t.check_expiration);
    if let Some(c) = &t.certificate {
        put_bool(&mut o, "pullModel", c.pull_supported);
        o.insert("certificate", certificate_json(c));
    }
    let j = Json::Object(o);
    proof {
        lemma_meaning(j);
    }
    j
}

/// Whether a security block asks for TLS.
pub open spec fn asks_for_tls(security: Option<SecurityConfig>) -> bool {
    security matches Some(s) && s.mode == SecurityMode::Tls
}

/// The mode, and of a TLS device what was negotiated and its failed handshakes.
pub open spec fn mode_members(
    tls: bool,
    failures: JsonV,
    session: Option<SecurityStatusV>,
) -> Map<Seq<char>, JsonV> {
    let mode = Map::<Seq<char>, JsonV>::empty().insert(
        "mode"@,
        JsonV::Text(
            if tls {
                "tls"@
            } else {
                "plaintext"@
            },
        ),
    );
    if tls {
        (match session {
            Some(s) => mode.insert("tlsVersion"@, text_or_null(s.tls_version)).insert(
                "cipherSuite"@,
                text_or_null(s.cipher_suite),
            ).insert("peerVerified"@, JsonV::Bool(s.peer_verified)).insert(
                "peer"@,
                text_or_null(s.peer),
            ).insert("clientCertNotAfter"@, text_or_null(s.client_cert_not_after)),
            None => mode,
        }).insert("handshakeFailures"@, failures)
    } else {
        mode
    }
}

/// The security object: the mode, and once a session is up whether the device has the security objects
/// and, if so, its posture.
pub open spec fn security_members(
    tls: bool,
    failures: JsonV,
    session: Option<SecurityStatusV>,
) -> Map<Seq<char>, JsonV> {
    let m = mode_members(tls, failures, session);
    match session {
        Some(s) => match s.target {
            Some(t) => m.insert("targetSupportsCipSecurity"@, JsonV::Bool(true)).insert(
                "target"@,
                JsonV::Object(target_members(t)),
            ),
            None => m.insert("targetSupportsCipSecurity"@, JsonV::Bool(false)),
        },
        None => m,
    }
}

/// The view of an optional session status.
pub open spec fn session_view(s: Option<SecurityStatus>) -> Option<SecurityStatusV> {
    match s {
        Some(x) => Some(x@),
        None => None,
    }
}

impl DeviceMetrics {
    /// The security object of the status: a plaintext device reports its mode, a TLS device what was
    /// negotiated and its failed handshakes, either of them the posture of the device.
    pub fn security_view(
        &self,
        security: &Option<SecurityConfig>,
        session: &Option<SecurityStatus>,
    ) -> (j: Json)
        ensures
            exists|failures: JsonV|
                #[trigger] is_pair(failures, self.conn.tls_handshake_failures) && j@ == JsonV::Object(
                    security_members(asks_for_tls(*security), failures, session_view(*session)),
                ),
    {
        let tls = match security {
            Some(s) => s.is_tls(),
            None => false,
        };
        let failures = pair_json(self.conn.tls_handshake_failures);
        let ghost fv = failures@;
        let mut o = Object::new();
        if tls {
            o.insert("mode", Json::of_text("tls"));
            if let Some(s) = session {
                o.insert("tlsVersion", optional_text_json(&s.tls_version));
                o.insert("cipherSuite", optional_text_json(&s.cipher_suite));
                o.insert("peerVerified", Json::of_bool(s.peer_verified));
                o.insert("peer", optional_text_json(&s.peer));
                o.insert("clientCertNotAfter", optional_text_json(&s.client_cert_not_after));
            }
            o.insert("handshakeFailures", failures);
        } else {
            o.insert("mode", Json::of_text("plaintext"));
        }
        if let Some(s) = session {
            match &s.target {
                Some(t) => {
                    o.insert("targetSupportsCipSecurity", Json::of_bool(true));
                    o.insert("target", security_target_view(t));
                },
                None => {
                    o.insert("targetSupportsCipSecurity", Json::of_bool(false));
                },
            }
        }
        let j = Json::Object(o);
        proof {
            lemma_meaning(j);
            assert(is_pair(fv, self.conn.tls_handshake_failures));
        }
        j
    }
}

/// The lists of a posture are always there, whatever was decoded.
pub proof fn posture_lists_are_always_there(t: TargetPostureV)
    ensures
        target_members(t).dom().contains("profiles"@),
        target_members(t).dom().contains("allowedCipherSuites"@),
        target_members(t).dom().contains("availableCipherSuites"@),
{
}

/// A plaintext device without a session reports its mode and nothing else.
pub proof fn plaintext_without_a_session_is_bare(failures: JsonV)
    ensures
        security_members(false, failures, None) == Map::<Seq<char>, JsonV>::empty().insert(
            "mode"@,
            JsonV::Text("plaintext"@),
        ),
{
}

// ---- what a status says ----

proof fn lemma_reads_among(rows: Seq<PollRow>, n: nat)
    requires
        n <= rows.len(),
    ensures
        ({
            let all = rows.take(n as int).fold_left(
                0int,
                |s: int, r: PollRow| s + r.counters.tag_reads.total,
            );
            let new = rows.take(n as int).fold_left(
                0int,
                |s: int, r: PollRow| s + r.counters.tag_reads.interval,
            );
            &&& all >= 0
            &&& new >= 0
            &&& all <= u64::MAX ==> reads_among(rows, n).total == all
            &&& all > u64::MAX ==> reads_among(rows, n).total == u64::MAX
            &&& new <= u64::MAX ==> reads_among(rows, n).interval == new
            &&& new > u64::MAX ==> reads_among(rows, n).interval == u64::MAX
        }),
    decreases n,
{
    if n > 0 {
        lemma_reads_among(rows, (n - 1) as nat);
        assert(rows.take(n as int).drop_last() =~= rows.take(n - 1));
        assert(rows.take(n as int).last() == rows[n - 1]);
    }
}

proof fn lemma_read_errors_among(rows: Seq<PollRow>, n: nat)
    requires
        n <= rows.len(),
    ensures
        ({
            let all = rows.take(n as int).fold_left(
                0int,
                |s: int, r: PollRow| s + r.counters.tag_read_errors.total,
            );
            let new = rows.take(n as int).fold_left(
                0int,
                |s: int, r: PollRow| s + r.counters.tag_read_errors.interval,
            );
            &&& all >= 0
            &&& new >= 0
            &&& all <= u64::MAX ==> read_errors_among(rows, n).total == all
            &&& all > u64::MAX ==> read_errors_among(rows, n).total == u64::MAX
            &&& new <= u64::MAX ==> read_errors_among(rows, n).interval == new
            &&& new > u64::MAX ==> read_errors_among(rows, n).interval == u64::MAX
        }),
    decreases n,
{
    if n > 0 {
        lemma_read_errors_among(rows, (n - 1) as nat);
        assert(rows.take(n as int).drop_last() =~= rows.take(n - 1));
        assert(rows.take(n as int).last() == rows[n - 1]);
    }
}

proof fn lemma_writes_among(rows: Seq<CmdRow>, n: nat)
    requires
        n <= rows.len(),
    ensures
        ({
            let all = rows.take(n as int).fold_left(
                0int,
                |s: int, r: CmdRow| s + r.counters.write_signals.total,
            );
            let new = rows.take(n as int).fold_left(
                0int,
                |s: int, r: CmdRow| s + r.counters.write_signals.interval,
            );
            &&& all >= 0
            &&& new >= 0
            &&& all <= u64::MAX ==> writes_among(rows, n).total == all
            &&& all > u64::MAX ==> writes_among(rows, n).total == u64::MAX
            &&& new <= u64::MAX ==> writes_among(rows, n).interval == new
            &&& new > u64::MAX ==> writes_among(rows, n).interval == u64::MAX
        }),
    decreases n,
{
    if n > 0 {
        lemma_writes_among(rows, (n - 1) as nat);
        assert(rows.take(n as int).drop_last() =~= rows.take(n - 1));
        assert(rows.take(n as int).last() == rows[n - 1]);
    }
}

/// What counts as a read is every accepted frame of a push device, and every tag read of every group of a
/// polled one; what counts as a failed read is a timeout there, and a failed tag read here; what counts as
/// a write is every signal of every write command. Each count adds up all rows, as far as 64 bits hold it.
pub proof fn a_status_adds_up_every_row(dm: DeviceMetrics)
    ensures
        dm.is_push ==> dm.reads() == dm.io.frames_consumed && dm.read_failures() == dm.io.io_timeouts,
        !dm.is_push ==> ({
            let all = dm.poll@.fold_left(0int, |s: int, r: PollRow| s + r.counters.tag_reads.total);
            let new = dm.poll@.fold_left(0int, |s: int, r: PollRow| s + r.counters.tag_reads.interval);
            &&& dm.reads().total == if all <= u64::MAX {
                all
            } else {
                u64::MAX as int
            }
            &&& dm.reads().interval == if new <= u64::MAX {
                new
            } else {
                u64::MAX as int
            }
        }),
        !dm.is_push ==> ({
            let all = dm.poll@.fold_left(0int, |s: int, r: PollRow| s + r.counters.tag_read_errors.total);
            let new = dm.poll@.fold_left(0int, |s: int, r: PollRow| s + r.counters.tag_read_errors.interval);
            &&& dm.read_failures().total == if all <= u64::MAX {
                all
            } else {
                u64::MAX as int
            }
            &&& dm.read_failures().interval == if new <= u64::MAX {
                new
            } else {
                u64::MAX as int
            }
        }),
        ({
            let all = dm.command@.fold_left(0int, |s: int, r: CmdRow| s + r.counters.write_signals.total);
            let new = dm.command@.fold_left(0int, |s: int, r: CmdRow| s + r.counters.write_signals.interval);
            &&& dm.writes().total == if all <= u64::MAX {
                all
            } else {
                u64::MAX as int
            }
            &&& dm.writes().interval == if new <= u64::MAX {
                new
            } else {
                u64::MAX as int
            }
        }),
{
    lemma_reads_among(dm.poll@, dm.poll@.len());
    lemma_read_errors_among(dm.poll@, dm.poll@.len());
    lemma_writes_among(dm.command@, dm.command@.len());
    assert(dm.poll@.take(dm.poll@.len() as int) =~= dm.poll@);
    assert(dm.command@.take(dm.command@.len() as int) =~= dm.command@);
}

/// A counter is told by its interval and its total, each under its own name.
pub proof fn a_counter_is_told_by_interval_and_total(v: JsonV, p: Pair)
    requires
        is_pair(v, p),
    ensures
        v is Object,
        is_count(v->Object_0["interval"@], p.interval),
        is_count(v->Object_0["total"@], p.total),
{
    reveal_strlit("interval");
    reveal_strlit("total");
    assert("interval"@.len() == 8 && "total"@.len() == 5);
    let (interval, total) = choose|interval: JsonV, total: JsonV|
        #[trigger] is_count(interval, p.interval) && #[trigger] is_count(total, p.total) && v
            == JsonV::Object(
            Map::empty().insert("interval"@, interval).insert("total"@, total),
        );
    assert(v->Object_0["interval"@] == interval);
    assert(v->Object_0["total"@] == total);
}

/// What is known of a device's certificate is told under its own name, and nothing is told of what is not.
pub proof fn a_certificate_is_told_as_far_as_it_is_known(c: TargetCertificateV)
    ensures
        ({
            let m = certificate_members(c);
            &&& m.dom().contains("pushSupported"@) <==> c.push_supported is Some
            &&& c.push_supported matches Some(b) ==> m["pushSupported"@] == JsonV::Bool(b)
            &&& m.dom().contains("pullSupported"@) <==> c.pull_supported is Some
            &&& c.pull_supported matches Some(b) ==> m["pullSupported"@] == JsonV::Bool(b)
            &&& m.dom().contains("name"@) <==> c.name is Some
            &&& c.name matches Some(t) ==> m["name"@] == JsonV::Text(t)
            &&& m.dom().contains("state"@) <==> c.state is Some
            &&& c.state matches Some(t) ==> m["state"@] == JsonV::Text(t)
            &&& m.dom().contains("encoding"@) <==> c.encoding is Some
            &&& c.encoding matches Some(t) ==> m["encoding"@] == JsonV::Text(t)
        }),
{
    reveal_strlit("pushSupported");
    reveal_strlit("pullSupported");
    reveal_strlit("name");
    reveal_strlit("state");
    reveal_strlit("encoding");
    assert("pushSupported"@.len() == 13 && "pullSupported"@.len() == 13 && "name"@.len() == 4);
    assert("state"@.len() == 5 && "encoding"@.len() == 8);
    assert("pushSupported"@[2] != "pullSupported"@[2]);
}

/// Of a device's posture the lists are told always and whole, and the rest as far as it was decoded; with
/// its certificate it is told, once more, whether certificates can be pulled.
pub proof fn a_posture_is_told_as_far_as_it_is_known(t: TargetPostureV, i: int)
    ensures
        ({
            let m = target_members(t);
            &&& m["profiles"@] == text_list(t.profiles)
            &&& m["allowedCipherSuites"@] == text_list(t.allowed_cipher_suites)
            &&& m["availableCipherSuites"@] == text_list(t.available_cipher_suites)
            &&& m.dom().contains("state"@) <==> t.state is Some
            &&& t.state matches Some(s) ==> m["state"@] == JsonV::Text(s)
            &&& m.dom().contains("verifyClient"@) <==> t.verify_client is Some
            &&& t.verify_client matches Some(b) ==> m["verifyClient"@] == JsonV::Bool(b)
            &&& m.dom().contains("sendCertificateChain"@) <==> t.send_certificate_chain is Some
            &&& t.send_certificate_chain matches Some(b) ==> m["sendCertificateChain"@]
                == JsonV::Bool(b)
            &&& m.dom().contains("checkExpiration"@) <==> t.check_expiration is Some
            &&& t.check_expiration matches Some(b) ==> m["checkExpiration"@] == JsonV::Bool(b)
            &&& m.dom().contains("certificate"@) <==> t.certificate is Some
            &&& t.certificate is None ==> !m.dom().contains("pullModel"@)
            &&& t.certificate matches Some(c) ==> {
                &&& m["certificate"@] == JsonV::Object(certificate_members(c))
                &&& m.dom().contains("pullModel"@) <==> c.pull_supported is Some
                &&& c.pull_supported is Some ==> m["pullModel"@] == JsonV::Bool(c.pull_supported->0)
            }
        }),
        text_list(t.profiles) matches JsonV::Array(l) && l.len() == t.profiles.len() && (0 <= i
            < l.len() ==> l[i] == JsonV::Text(t.profiles[i])),
{
    reveal_strlit("state");
    reveal_strlit("profiles");
    reveal_strlit("allowedCipherSuites");
    reveal_strlit("availableCipherSuites");
    reveal_strlit("verifyClient");
    reveal_strlit("sendCertificateChain");
    reveal_strlit("checkExpiration");
    reveal_strlit("pullModel");
    reveal_strlit("certificate");
    assert("state"@.len() == 5 && "profiles"@.len() == 8 && "allowedCipherSuites"@.len() == 19);
    assert("availableCipherSuites"@.len() == 21 && "verifyClient"@.len() == 12);
    assert("sendCertificateChain"@.len() == 20 && "checkExpiration"@.len() == 15);
    assert("pullModel"@.len() == 9 && "certificate"@.len() == 11);
}

/// A device is told to be TLS or plaintext as its block asks. Of a TLS device its failed handshakes are
/// told, and once a session is up what was negotiated on it; of either, once a session is up, whether the
/// device has the security objects, and its posture where it has.
pub proof fn a_security_status_is_told_of_the_session(
    tls: bool,
    failures: JsonV,
    session: Option<SecurityStatusV>,
)
    ensures
        ({
            let m = security_members(tls, failures, session);
            &&& m["mode"@] == JsonV::Text(
                if tls {
                    "tls"@
                } else {
                    "plaintext"@
                },
            )
            &&& m.dom().contains("handshakeFailures"@) <==> tls
            &&& tls ==> m["handshakeFailures"@] == failures
            &&& m.dom().contains("peer"@) <==> tls && session is Some
            &&& session is None ==> !m.dom().contains("targetSupportsCipSecurity"@)
                && !m.dom().contains("target"@)
            &&& session matches Some(s) ==> {
                &&& m["targetSupportsCipSecurity"@] == JsonV::Bool(s.target is Some)
                &&& m.dom().contains("target"@) <==> s.target is Some
                &&& s.target is Some ==> m["target"@] == JsonV::Object(target_members(s.target->0))
                &&& tls ==> {
                    &&& m["tlsVersion"@] == text_or_null(s.tls_version)
                    &&& m["cipherSuite"@] == text_or_null(s.cipher_suite)
                    &&& m["peerVerified"@] == JsonV::Bool(s.peer_verified)
                    &&& m["peer"@] == text_or_null(s.peer)
                    &&& m["clientCertNotAfter"@] == text_or_null(s.client_cert_not_after)
                }
            }
        }),
{
    reveal_strlit("mode");
    reveal_strlit("tlsVersion");
    reveal_strlit("cipherSuite");
    reveal_strlit("peerVerified");
    reveal_strlit("peer");
    reveal_strlit("clientCertNotAfter");
    reveal_strlit("handshakeFailures");
    reveal_strlit("targetSupportsCipSecurity");
    reveal_strlit("target");
    assert("mode"@.len() == 4 && "tlsVersion"@.len() == 10 && "cipherSuite"@.len() == 11);
    assert("peerVerified"@.len() == 12 && "peer"@.len() == 4 && "clientCertNotAfter"@.len() == 18);
    assert("handshakeFailures"@.len() == 17 && "targetSupportsCipSecurity"@.len() == 25);
    assert("target"@.len() == 6 && "mode"@[0] != "peer"@[0]);
}

/// A text that is there is told as it is, and one that is not as null. A block asks for TLS exactly when
/// there is one and its mode is that.
pub proof fn a_missing_text_is_null(s: Option<Seq<char>>, security: Option<SecurityConfig>)
    ensures
        s matches Some(t) ==> text_or_null(s) == JsonV::Text(t),
        s is None ==> text_or_null(s) is Null,
        asks_for_tls(security) <==> security is Some && security->0.mode is Tls,
{
}

} // verus!
