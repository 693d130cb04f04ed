//! The metrics of one device: what is recorded, and what each emit carries.

use vstd::prelude::*;

use crate::clock::Instant;
use crate::config::{
    push_mode, push_publish_mode, DeviceConfig, DeviceMode, GlobalConfig, PollGroup, PublishMode,
    SignalSpec,
};
use crate::counters::{
    add_up, sum, CmdCounters, ConnCounters, IoCounters, IoLinkStats, PollCounters, PubCounters,
};
use crate::metrics::{all_verbs, command_verbs, CommandTally, Outcome, Verb};
use crate::rows::{
    a_new_key_keeps_the_order, ascending, is_key_before, key_before, key_place, lemma_key_place,
    lemma_place_bounds, with_key,
};
use crate::text::{owned, texts};

verus! {

/// The configured inventory of one poll group.
#[derive(Debug)]
pub struct InventoryRow {
    pub group: String,
    pub configured_signals: u64,
    pub array_signals: u64,
    pub writable_signals: u64,
    pub poll_interval_ms: u64,
    pub requests_per_cycle: u64,
}

/// The poll counters of one group with one outcome.
#[derive(Debug)]
pub struct PollRow {
    pub group: String,
    pub result: Outcome,
    pub counters: PollCounters,
}

/// The publish counters of one publish mode.
#[derive(Clone, Copy, Debug, PartialEq, Eq, Structural)]
pub struct PubRow {
    pub mode: PublishMode,
    pub counters: PubCounters,
}

/// The counters of one command with one outcome.
#[derive(Clone, Copy, Debug, PartialEq, Eq, Structural)]
pub struct CmdRow {
    pub verb: Verb,
    pub result: Outcome,
    pub counters: CmdCounters,
}

/// The metrics of one device.
#[derive(Debug)]
pub struct DeviceMetrics {
    pub instance: String,
    pub connection_mode: String,
    pub is_push: bool,
    pub publish_modes: Vec<PublishMode>,
    pub inventory: Vec<InventoryRow>,
    /// Whether the output assembly is produced in run mode.
    pub produced_run: bool,
    pub conn: ConnCounters,
    pub poll: Vec<PollRow>,
    pub publish: Vec<PubRow>,
    pub command: Vec<CmdRow>,
    pub io: IoCounters,
}

// ---- construction ----

/// How many of the first `n` signals are arrays.
pub open spec fn arrays_among(signals: Seq<SignalSpec>, n: nat) -> nat
    decreases n,
{
    if n == 0 {
        0
    } else {
        arrays_among(signals, (n - 1) as nat) + if signals[n - 1].array_count is Some {
            1nat
        } else {
            0nat
        }
    }
}

/// How many of the first `n` signals may be written.
pub open spec fn writable_among(device: DeviceConfig, signals: Seq<SignalSpec>, n: nat) -> nat
    decreases n,
{
    if n == 0 {
        0
    } else {
        writable_among(device, signals, (n - 1) as nat) + if device.may_write(
            signals[n - 1].tag_path@,
        ) {
            1nat
        } else {
            0nat
        }
    }
}

/// The row is the inventory of the group: one request per signal and cycle.
pub open spec fn row_describes(row: InventoryRow, device: DeviceConfig, group: PollGroup) -> bool {
    let n = group.signals@.len();
    &&& row.group@ == group.label()
    &&& row.configured_signals == n
    &&& row.array_signals == arrays_among(group.signals@, n)
    &&& row.writable_signals == writable_among(device, group.signals@, n)
    &&& row.poll_interval_ms == group.poll_interval_ms
    &&& row.requests_per_cycle == n
}

/// The publish modes of the first `n` groups, each once, in the order they first occur.
pub open spec fn modes_among(groups: Seq<PollGroup>, n: nat) -> Seq<PublishMode>
    decreases n,
{
    if n == 0 {
        Seq::empty()
    } else {
        let before = modes_among(groups, (n - 1) as nat);
        if before.contains(groups[n - 1].publish_mode) {
            before
        } else {
            before.push(groups[n - 1].publish_mode)
        }
    }
}

/// The publish modes a device emits under.
pub open spec fn device_modes(device: DeviceConfig, global: GlobalConfig) -> Seq<PublishMode> {
    if device.mode == DeviceMode::Push {
        seq![push_mode(device.defaults, global.defaults)]
    } else {
        let modes = modes_among(device.poll_groups@, device.poll_groups@.len());
        if modes.len() == 0 {
            seq![PublishMode::OnChange]
        } else {
            modes
        }
    }
}

/// The first row of a group with an outcome.
pub open spec fn poll_row(rows: Seq<PollRow>, group: Seq<char>, result: Outcome) -> Option<int>
    decreases rows.len(),
{
    if rows.len() == 0 {
        None
    } else {
        match poll_row(rows.drop_last(), group, result) {
            Some(i) => Some(i),
            None => if rows.last().group@ == group && rows.last().result == result {
                Some(rows.len() - 1)
            } else {
                None
            },
        }
    }
}

/// The first row of a publish mode.
pub open spec fn pub_row(rows: Seq<PubRow>, mode: PublishMode) -> Option<int>
    decreases rows.len(),
{
    if rows.len() == 0 {
        None
    } else {
        match pub_row(rows.drop_last(), mode) {
            Some(i) => Some(i),
            None => if rows.last().mode == mode {
                Some(rows.len() - 1)
            } else {
                None
            },
        }
    }
}

/// The first row of a command with an outcome.
pub open spec fn cmd_row(rows: Seq<CmdRow>, verb: Verb, result: Outcome) -> Option<int>
    decreases rows.len(),
{
    if rows.len() == 0 {
        None
    } else {
        match cmd_row(rows.drop_last(), verb, result) {
            Some(i) => Some(i),
            None => if rows.last().verb == verb && rows.last().result == result {
                Some(rows.len() - 1)
            } else {
                None
            },
        }
    }
}

fn find_poll_row(rows: &Vec<PollRow>, group: &str, result: Outcome) -> (r: Option<usize>)
    ensures
        match r {
            Some(i) => i < rows@.len() && poll_row(rows@, group@, result) == Some(i as int)
                && rows@[i as int].group@ == group@ && rows@[i as int].result == result,
            None => poll_row(rows@, group@, result) is None,
        },
{
    let wanted = owned(group);
    let mut i: usize = 0;
    assert(rows@.take(0) =~= Seq::<PollRow>::empty());
    while i < rows.len()
        invariant
            i <= rows@.len(),
            wanted@ == group@,
            poll_row(rows@.take(i as int), group@, result) is None,
        decreases rows@.len() - i,
    {
        let ghost next = rows@.take(i + 1);
        assert(next.drop_last() =~= rows@.take(i as int));
        assert(next.last() == rows@[i as int]);
        if rows[i].group == wanted && rows[i].result == result {
            proof {
                lemma_poll_row_prefix(rows@, i + 1, group@, result);
            }
            return Some(i);
        }
        i = i + 1;
    }
    assert(rows@.take(i as int) =~= rows@);
    None
}

proof fn lemma_poll_row_prefix(rows: Seq<PollRow>, n: int, group: Seq<char>, result: Outcome)
    requires
        0 <= n <= rows.len(),
        poll_row(rows.take(n), group, result) is Some,
    ensures
        poll_row(rows, group, result) == poll_row(rows.take(n), group, result),
    decreases rows.len() - n,
{
    if n == rows.len() {
        assert(rows.take(n) =~= rows);
    } else {
        let next = rows.take(n + 1);
        assert(next.drop_last() =~= rows.take(n));
        lemma_poll_row_prefix(rows, n + 1, group, result);
    }
}

fn find_pub_row(rows: &Vec<PubRow>, mode: PublishMode) -> (r: Option<usize>)
    ensures
        match r {
            Some(i) => i < rows@.len() && pub_row(rows@, mode) == Some(i as int),
            None => pub_row(rows@, mode) is None,
        },
{
    let mut i: usize = 0;
    assert(rows@.take(0) =~= Seq::<PubRow>::empty());
    while i < rows.len()
        invariant
            i <= rows@.len(),
            pub_row(rows@.take(i as int), mode) is None,
        decreases rows@.len() - i,
    {
        let ghost next = rows@.take(i + 1);
        assert(next.drop_last() =~= rows@.take(i as int));
        assert(next.last() == rows@[i as int]);
        if rows[i].mode == mode {
            proof {
                lemma_pub_row_prefix(rows@, i + 1, mode);
            }
            return Some(i);
        }
        i = i + 1;
    }
    assert(rows@.take(i as int) =~= rows@);
    None
}

proof fn lemma_pub_row_prefix(rows: Seq<PubRow>, n: int, mode: PublishMode)
    requires
        0 <= n <= rows.len(),
        pub_row(rows.take(n), mode) is Some,
    ensures
        pub_row(rows, mode) == pub_row(rows.take(n), mode),
    decreases rows.len() - n,
{
    if n == rows.len() {
        assert(rows.take(n) =~= rows);
    } else {
        let next = rows.take(n + 1);
        assert(next.drop_last() =~= rows.take(n));
        lemma_pub_row_prefix(rows, n + 1, mode);
    }
}

fn find_cmd_row(rows: &Vec<CmdRow>, verb: Verb, result: Outcome) -> (r: Option<usize>)
    ensures
        match r {
            Some(i) => i < rows@.len() && cmd_row(rows@, verb, result) == Some(i as int)
                && rows@[i as int].verb == verb && rows@[i as int].result == result,
            None => cmd_row(rows@, verb, result) is None,
        },
{
    let mut i: usize = 0;
    assert(rows@.take(0) =~= Seq::<CmdRow>::empty());
    while i < rows.len()
        invariant
            i <= rows@.len(),
            cmd_row(rows@.take(i as int), verb, result) is None,
        decreases rows@.len() - i,
    {
        let ghost next = rows@.take(i + 1);
        assert(next.drop_last() =~= rows@.take(i as int));
        assert(next.last() == rows@[i as int]);
        if rows[i].verb == verb && rows[i].result == result {
            proof {
                lemma_cmd_row_prefix(rows@, i + 1, verb, result);
            }
            return Some(i);
        }
        i = i + 1;
    }
    assert(rows@.take(i as int) =~= rows@);
    None
}

proof fn lemma_cmd_row_prefix(rows: Seq<CmdRow>, n: int, verb: Verb, result: Outcome)
    requires
        0 <= n <= rows.len(),
        cmd_row(rows.take(n), verb, result) is Some,
    ensures
        cmd_row(rows, verb, result) == cmd_row(rows.take(n), verb, result),
    decreases rows.len() - n,
{
    if n == rows.len() {
        assert(rows.take(n) =~= rows);
    } else {
        let next = rows.take(n + 1);
        assert(next.drop_last() =~= rows.take(n));
        lemma_cmd_row_prefix(rows, n + 1, verb, result);
    }
}

/// The key of a group with an outcome.
pub open spec fn poll_key(group: Seq<char>, result: Outcome) -> (Seq<char>, Seq<char>) {
    (group, result.token())
}

/// The key of a publish mode.
pub open spec fn pub_key(mode: PublishMode) -> (Seq<char>, Seq<char>) {
    (mode.token(), Seq::empty())
}

/// The key of a command with an outcome.
pub open spec fn cmd_key(verb: Verb, result: Outcome) -> (Seq<char>, Seq<char>) {
    (verb.token(), result.token())
}

/// The key of each row.
pub open spec fn poll_keys(rows: Seq<PollRow>) -> Seq<(Seq<char>, Seq<char>)> {
    Seq::new(rows.len(), |i: int| poll_key(rows[i].group@, rows[i].result))
}

/// The key of each row.
pub open spec fn pub_keys(rows: Seq<PubRow>) -> Seq<(Seq<char>, Seq<char>)> {
    Seq::new(rows.len(), |i: int| pub_key(rows[i].mode))
}

/// The key of each row.
pub open spec fn cmd_keys(rows: Seq<CmdRow>) -> Seq<(Seq<char>, Seq<char>)> {
    Seq::new(rows.len(), |i: int| cmd_key(rows[i].verb, rows[i].result))
}

/// The rows the first `n` groups start with: each group with either outcome, once.
pub open spec fn starting_keys(groups: Seq<PollGroup>, n: nat) -> Seq<(Seq<char>, Seq<char>)>
    decreases n,
{
    if n == 0 {
        Seq::empty()
    } else {
        let g = groups[n - 1].label();
        with_key(
            with_key(starting_keys(groups, (n - 1) as nat), poll_key(g, Outcome::Success)),
            poll_key(g, Outcome::Error),
        )
    }
}

/// The rows the first `n` publish modes start with.
pub open spec fn starting_modes(modes: Seq<PublishMode>, n: nat) -> Seq<(Seq<char>, Seq<char>)>
    decreases n,
{
    if n == 0 {
        Seq::empty()
    } else {
        with_key(starting_modes(modes, (n - 1) as nat), pub_key(modes[n - 1]))
    }
}

/// The rows the first `n` commands start with: each with either outcome.
pub open spec fn starting_commands(verbs: Seq<Verb>, n: nat) -> Seq<(Seq<char>, Seq<char>)>
    decreases n,
{
    if n == 0 {
        Seq::empty()
    } else {
        with_key(
            with_key(
                starting_commands(verbs, (n - 1) as nat),
                cmd_key(verbs[n - 1], Outcome::Success),
            ),
            cmd_key(verbs[n - 1], Outcome::Error),
        )
    }
}

proof fn lemma_outcome_tokens(a: Outcome, b: Outcome)
    ensures
        a.token() == b.token() ==> a == b,
{
    reveal_strlit("success");
    reveal_strlit("error");
    assert("success"@.len() != "error"@.len());
}

proof fn lemma_mode_tokens(a: PublishMode, b: PublishMode)
    ensures
        a.token() == b.token() ==> a == b,
{
    reveal_strlit("onChange");
    reveal_strlit("always");
    assert("onChange"@.len() != "always"@.len());
}

/// The length and the fourth character of a command's name, which no two commands share.
spec fn told_apart(verb: Verb) -> (nat, char) {
    match verb {
        Verb::Status => (9, 's'),
        Verb::Read => (7, 'r'),
        Verb::Write => (8, 'w'),
        Verb::Signals => (10, 's'),
        Verb::Browse => (9, 'b'),
        Verb::Pause => (8, 'p'),
        Verb::Resume => (9, 'r'),
        Verb::Reconnect => (9, 'o'),
        Verb::Repoll => (6, 'o'),
    }
}

proof fn lemma_verb_tokens(a: Verb, b: Verb)
    ensures
        a.token() == b.token() ==> a == b,
{
    reveal_strlit("sb/status");
    reveal_strlit("sb/read");
    reveal_strlit("sb/write");
    reveal_strlit("sb/signals");
    reveal_strlit("sb/browse");
    reveal_strlit("sb/pause");
    reveal_strlit("sb/resume");
    reveal_strlit("reconnect");
    reveal_strlit("repoll");
    assert(a.token().len() == told_apart(a).0 && a.token()[3] == told_apart(a).1);
    assert(b.token().len() == told_apart(b).0 && b.token()[3] == told_apart(b).1);
}

proof fn lemma_poll_row_key(rows: Seq<PollRow>, group: Seq<char>, result: Outcome)
    ensures
        poll_row(rows, group, result) is Some <==> poll_keys(rows).contains(poll_key(group, result)),
    decreases rows.len(),
{
    let key = poll_key(group, result);
    let keys = poll_keys(rows);
    if rows.len() > 0 {
        let before = poll_keys(rows.drop_last());
        lemma_poll_row_key(rows.drop_last(), group, result);
        lemma_outcome_tokens(rows.last().result, result);
        let n = rows.len() - 1;
        assert(keys[n] == poll_key(rows.last().group@, rows.last().result));
        if before.contains(key) {
            let i = choose|i: int| 0 <= i < before.len() && before[i] == key;
            assert(keys[i] == key);
        }
        if keys.contains(key) {
            let i = choose|i: int| 0 <= i < keys.len() && keys[i] == key;
            if i < n {
                assert(before[i] == key);
            }
        }
    }
}

proof fn lemma_pub_row_key(rows: Seq<PubRow>, mode: PublishMode)
    ensures
        pub_row(rows, mode) is Some <==> pub_keys(rows).contains(pub_key(mode)),
        pub_row(rows, mode) matches Some(i) ==> 0 <= i < rows.len() && rows[i].mode == mode,
    decreases rows.len(),
{
    let key = pub_key(mode);
    let keys = pub_keys(rows);
    if rows.len() > 0 {
        let before = pub_keys(rows.drop_last());
        lemma_pub_row_key(rows.drop_last(), mode);
        lemma_mode_tokens(rows.last().mode, mode);
        let n = rows.len() - 1;
        assert(keys[n] == pub_key(rows.last().mode));
        if before.contains(key) {
            let i = choose|i: int| 0 <= i < before.len() && before[i] == key;
            assert(keys[i] == key);
        }
        if keys.contains(key) {
            let i = choose|i: int| 0 <= i < keys.len() && keys[i] == key;
            if i < n {
                assert(before[i] == key);
            }
        }
    }
}

proof fn lemma_cmd_row_key(rows: Seq<CmdRow>, verb: Verb, result: Outcome)
    ensures
        cmd_row(rows, verb, result) is Some <==> cmd_keys(rows).contains(cmd_key(verb, result)),
        cmd_row(rows, verb, result) matches Some(i) ==> 0 <= i < rows.len() && rows[i].verb == verb
            && rows[i].result == result,
    decreases rows.len(),
{
    let key = cmd_key(verb, result);
    let keys = cmd_keys(rows);
    if rows.len() > 0 {
        let before = cmd_keys(rows.drop_last());
        lemma_cmd_row_key(rows.drop_last(), verb, result);
        lemma_outcome_tokens(rows.last().result, result);
        lemma_verb_tokens(rows.last().verb, verb);
        let n = rows.len() - 1;
        assert(keys[n] == cmd_key(rows.last().verb, rows.last().result));
        if before.contains(key) {
            let i = choose|i: int| 0 <= i < before.len() && before[i] == key;
            assert(keys[i] == key);
        }
        if keys.contains(key) {
            let i = choose|i: int| 0 <= i < keys.len() && keys[i] == key;
            if i < n {
                assert(before[i] == key);
            }
        }
    }
}

/// The place of the row of a group with an outcome, or the place it belongs at.
pub open spec fn poll_at(rows: Seq<PollRow>, group: Seq<char>, result: Outcome) -> int {
    match poll_row(rows, group, result) {
        Some(i) => i,
        None => key_place(poll_keys(rows), poll_key(group, result)) as int,
    }
}

/// The place of the row of a publish mode, or the place it belongs at.
pub open spec fn pub_at(rows: Seq<PubRow>, mode: PublishMode) -> int {
    match pub_row(rows, mode) {
        Some(i) => i,
        None => key_place(pub_keys(rows), pub_key(mode)) as int,
    }
}

/// The rows with one of the publish mode among them.
pub open spec fn with_pub_row(rows: Seq<PubRow>, mode: PublishMode) -> Seq<PubRow> {
    if pub_row(rows, mode) is Some {
        rows
    } else {
        rows.insert(pub_at(rows, mode), PubRow { mode, counters: PubCounters::zero() })
    }
}

/// The place of the row of a command with an outcome, or the place it belongs at.
pub open spec fn cmd_at(rows: Seq<CmdRow>, verb: Verb, result: Outcome) -> int {
    match cmd_row(rows, verb, result) {
        Some(i) => i,
        None => key_place(cmd_keys(rows), cmd_key(verb, result)) as int,
    }
}

/// The rows with one of the command with the outcome among them.
pub open spec fn with_cmd_row(rows: Seq<CmdRow>, verb: Verb, result: Outcome) -> Seq<CmdRow> {
    if cmd_row(rows, verb, result) is Some {
        rows
    } else {
        rows.insert(cmd_at(rows, verb, result), CmdRow { verb, result, counters: CmdCounters::zero() })
    }
}

/// The rows are those of `before`, with one of the group with the outcome among them.
pub open spec fn poll_rows_with(
    rows: Seq<PollRow>,
    before: Seq<PollRow>,
    group: Seq<char>,
    result: Outcome,
) -> bool {
    let at = poll_at(before, group, result);
    if poll_row(before, group, result) is Some {
        rows == before
    } else {
        &&& 0 <= at <= before.len()
        &&& rows == before.insert(at, rows[at])
        &&& rows[at].group@ == group
        &&& rows[at].result == result
        &&& rows[at].counters == PollCounters::zero()
    }
}

/// The place of the row of a group with an outcome; one is made when there is none.
fn poll_slot(rows: &mut Vec<PollRow>, group: &str, result: Outcome) -> (at: usize)
    ensures
        at == poll_at(old(rows)@, group@, result),
        at < final(rows)@.len(),
        poll_rows_with(final(rows)@, old(rows)@, group@, result),
        poll_keys(final(rows)@) == with_key(poll_keys(old(rows)@), poll_key(group@, result)),
        final(rows)@[at as int].group@ == group@,
        final(rows)@[at as int].result == result,
{
    proof {
        lemma_poll_row_key(rows@, group@, result);
    }
    match find_poll_row(rows, group, result) {
        Some(i) => i,
        None => {
            let ghost keys = poll_keys(rows@);
            let ghost key = poll_key(group@, result);
            let mut at: usize = 0;
            while at < rows.len() && is_key_before(
                rows[at].group.as_str(),
                rows[at].result.as_str(),
                group,
                result.as_str(),
            )
                invariant
                    at <= rows@.len(),
                    keys == poll_keys(rows@),
                    key == poll_key(group@, result),
                    forall|j: int| 0 <= j < at ==> key_before(#[trigger] keys[j], key),
                decreases rows@.len() - at,
            {
                assert(key_before(keys[at as int], key));
                at = at + 1;
            }
            proof {
                lemma_key_place(keys, key, at as nat);
            }
            rows.insert(at, PollRow { group: owned(group), result, counters: PollCounters::new() });
            assert(poll_keys(rows@) =~= keys.insert(at as int, key));
            at
        },
    }
}

/// The place of the row of a publish mode; one is made when there is none.
fn pub_slot(rows: &mut Vec<PubRow>, mode: PublishMode) -> (at: usize)
    ensures
        at == pub_at(old(rows)@, mode),
        at < final(rows)@.len(),
        final(rows)@ == with_pub_row(old(rows)@, mode),
        final(rows)@[at as int].mode == mode,
        pub_keys(final(rows)@) == with_key(pub_keys(old(rows)@), pub_key(mode)),
{
    proof {
        lemma_pub_row_key(rows@, mode);
    }
    match find_pub_row(rows, mode) {
        Some(i) => i,
        None => {
            let ghost keys = pub_keys(rows@);
            let ghost key = pub_key(mode);
            proof {
                reveal_strlit("");
                assert(""@ =~= Seq::<char>::empty());
            }
            let mut at: usize = 0;
            while at < rows.len() && is_key_before(rows[at].mode.as_str(), "", mode.as_str(), "")
                invariant
                    at <= rows@.len(),
                    keys == pub_keys(rows@),
                    key == pub_key(mode),
                    ""@ == Seq::<char>::empty(),
                    forall|j: int| 0 <= j < at ==> key_before(#[trigger] keys[j], key),
                decreases rows@.len() - at,
            {
                assert(key_before(keys[at as int], key));
                at = at + 1;
            }
            proof {
                lemma_key_place(keys, key, at as nat);
            }
            rows.insert(at, PubRow { mode, counters: PubCounters::new() });
            assert(pub_keys(rows@) =~= keys.insert(at as int, key));
            at
        },
    }
}

/// The place of the row of a command with an outcome; one is made when there is none.
fn cmd_slot(rows: &mut Vec<CmdRow>, verb: Verb, result: Outcome) -> (at: usize)
    ensures
        at == cmd_at(old(rows)@, verb, result),
        at < final(rows)@.len(),
        final(rows)@ == with_cmd_row(old(rows)@, verb, result),
        final(rows)@[at as int].verb == verb,
        final(rows)@[at as int].result == result,
        cmd_keys(final(rows)@) == with_key(cmd_keys(old(rows)@), cmd_key(verb, result)),
{
    proof {
        lemma_cmd_row_key(rows@, verb, result);
    }
    match find_cmd_row(rows, verb, result) {
        Some(i) => i,
        None => {
            let ghost keys = cmd_keys(rows@);
            let ghost key = cmd_key(verb, result);
            let mut at: usize = 0;
            while at < rows.len() && is_key_before(
                rows[at].verb.as_str(),
                rows[at].result.as_str(),
                verb.as_str(),
                result.as_str(),
            )
                invariant
                    at <= rows@.len(),
                    keys == cmd_keys(rows@),
                    key == cmd_key(verb, result),
                    forall|j: int| 0 <= j < at ==> key_before(#[trigger] keys[j], key),
                decreases rows@.len() - at,
            {
                assert(key_before(keys[at as int], key));
                at = at + 1;
            }
            proof {
                lemma_key_place(keys, key, at as nat);
            }
            rows.insert(at, CmdRow { verb, result, counters: CmdCounters::new() });
            assert(cmd_keys(rows@) =~= keys.insert(at as int, key));
            at
        },
    }
}

impl DeviceMetrics {
    /// The rows a device starts with: every group with either outcome, every publish mode, every
    /// command with either outcome, all at zero.
    pub open spec fn starts(self, device: DeviceConfig, global: GlobalConfig) -> bool {
        &&& self.instance@ == device.id@
        &&& self.connection_mode@ == device.connection_label()
        &&& self.is_push == (device.mode == DeviceMode::Push)
        &&& self.publish_modes@ == device_modes(device, global)
        &&& self.inventory@.len() == device.poll_groups@.len()
        &&& forall|i: int|
            0 <= i < self.inventory@.len() ==> row_describes(
                #[trigger] self.inventory@[i],
                device,
                device.poll_groups@[i],
            )
        &&& self.produced_run == (device.io matches Some(io) ==> io.output_run matches Some(run)
            ==> run)
        &&& self.conn == ConnCounters::zero()
        &&& self.io == IoCounters::zero()
        &&& forall|i: int|
            0 <= i < self.poll@.len() ==> (#[trigger] self.poll@[i]).counters == PollCounters::zero()
        &&& poll_keys(self.poll@) == starting_keys(device.poll_groups@, device.poll_groups@.len())
        &&& forall|i: int|
            0 <= i < self.publish@.len() ==> (#[trigger] self.publish@[i]).counters
                == PubCounters::zero()
        &&& pub_keys(self.publish@) == starting_modes(
            self.publish_modes@,
            self.publish_modes@.len(),
        )
        &&& forall|i: int|
            0 <= i < self.command@.len() ==> (#[trigger] self.command@[i]).counters
                == CmdCounters::zero()
        &&& cmd_keys(self.command@) == starting_commands(all_verbs(), all_verbs().len())
    }

    /// The rows of each family are in the order of their keys, none of them twice.
    pub open spec fn in_order(self) -> bool {
        &&& ascending(poll_keys(self.poll@))
        &&& ascending(pub_keys(self.publish@))
        &&& ascending(cmd_keys(self.command@))
    }

    /// The metrics of a device that has just been launched.
    pub fn new(device: &DeviceConfig, global: &GlobalConfig) -> (r: DeviceMetrics)
        ensures
            r.starts(*device, *global),
            r.in_order(),
    {
        let is_push = device.mode == DeviceMode::Push;
        let publish_modes = modes_of(device, global);
        let mut inventory: Vec<InventoryRow> = Vec::new();
        let mut poll: Vec<PollRow> = Vec::new();
        let mut i: usize = 0;
        assert(poll_keys(poll@) =~= starting_keys(device.poll_groups@, 0));
        while i < device.poll_groups.len()
            invariant
                i <= device.poll_groups@.len(),
                inventory@.len() == i,
                forall|j: int|
                    0 <= j < i ==> row_describes(
                        #[trigger] inventory@[j],
                        *device,
                        device.poll_groups@[j],
                    ),
                forall|j: int|
                    0 <= j < poll@.len() ==> (#[trigger] poll@[j]).counters == PollCounters::zero(),
                poll_keys(poll@) == starting_keys(device.poll_groups@, i as nat),
                ascending(poll_keys(poll@)),
            decreases device.poll_groups@.len() - i,
        {
            let group = device.poll_groups[i].name();
            let ghost before = poll@;
            let _a: usize = poll_slot(&mut poll, group.as_str(), Outcome::Success);
            let ghost mid = poll@;
            let _b: usize = poll_slot(&mut poll, group.as_str(), Outcome::Error);
            proof {
                lemma_zero_rows(mid, before, group@, Outcome::Success);
                lemma_zero_rows(poll@, mid, group@, Outcome::Error);
                a_new_key_keeps_the_order(poll_keys(before), poll_key(group@, Outcome::Success));
                a_new_key_keeps_the_order(poll_keys(mid), poll_key(group@, Outcome::Error));
            }
            let row = inventory_row(device, &device.poll_groups[i], group);
            inventory.push(row);
            i = i + 1;
        }
        let mut publish: Vec<PubRow> = Vec::new();
        let mut k: usize = 0;
        assert(pub_keys(publish@) =~= starting_modes(publish_modes@, 0));
        while k < publish_modes.len()
            invariant
                k <= publish_modes@.len(),
                forall|j: int|
                    0 <= j < publish@.len() ==> (#[trigger] publish@[j]).counters
                        == PubCounters::zero(),
                pub_keys(publish@) == starting_modes(publish_modes@, k as nat),
                ascending(pub_keys(publish@)),
            decreases publish_modes@.len() - k,
        {
            proof {
                a_new_key_keeps_the_order(pub_keys(publish@), pub_key(publish_modes@[k as int]));
                lemma_place_bounds(pub_keys(publish@), pub_key(publish_modes@[k as int]));
            }
            let _at: usize = pub_slot(&mut publish, publish_modes[k]);
            k = k + 1;
        }
        let command = command_rows();
        let produced_run = match &device.io {
            Some(io) => match io.output_run {
                Some(run) => run,
                None => true,
            },
            None => true,
        };
        DeviceMetrics {
            instance: device.id.clone(),
            connection_mode: owned(device.connection_mode()),
            is_push,
            publish_modes,
            inventory,
            produced_run,
            conn: ConnCounters::new(),
            poll,
            publish,
            command,
            io: IoCounters::new(),
        }
    }
}

proof fn lemma_zero_rows(
    rows: Seq<PollRow>,
    before: Seq<PollRow>,
    group: Seq<char>,
    result: Outcome,
)
    requires
        poll_rows_with(rows, before, group, result),
        forall|j: int| 0 <= j < before.len() ==> (#[trigger] before[j]).counters == PollCounters::zero(),
    ensures
        forall|j: int| 0 <= j < rows.len() ==> (#[trigger] rows[j]).counters == PollCounters::zero(),
{
    let at = poll_at(before, group, result);
    assert forall|j: int| 0 <= j < rows.len() implies (#[trigger] rows[j]).counters
        == PollCounters::zero() by {
        if poll_row(before, group, result) is None {
            let all = before.insert(at, rows[at]);
            if j < at {
                assert(all[j] == before[j]);
            } else if j > at {
                assert(all[j] == before[j - 1]);
            }
        }
    }
}

fn command_rows() -> (rows: Vec<CmdRow>)
    ensures
        forall|i: int|
            0 <= i < rows@.len() ==> (#[trigger] rows@[i]).counters == CmdCounters::zero(),
        cmd_keys(rows@) == starting_commands(all_verbs(), all_verbs().len()),
        ascending(cmd_keys(rows@)),
{
    let verbs = command_verbs();
    let mut rows: Vec<CmdRow> = Vec::new();
    let mut i: usize = 0;
    assert(cmd_keys(rows@) =~= starting_commands(all_verbs(), 0));
    while i < verbs.len()
        invariant
            i <= verbs@.len(),
            verbs@ == all_verbs(),
            forall|j: int|
                0 <= j < rows@.len() ==> (#[trigger] rows@[j]).counters == CmdCounters::zero(),
            cmd_keys(rows@) == starting_commands(all_verbs(), i as nat),
            ascending(cmd_keys(rows@)),
        decreases verbs@.len() - i,
    {
        let verb = verbs[i];
        proof {
            a_new_key_keeps_the_order(cmd_keys(rows@), cmd_key(verb, Outcome::Success));
            lemma_place_bounds(cmd_keys(rows@), cmd_key(verb, Outcome::Success));
        }
        let _a: usize = cmd_slot(&mut rows, verb, Outcome::Success);
        proof {
            a_new_key_keeps_the_order(cmd_keys(rows@), cmd_key(verb, Outcome::Error));
            lemma_place_bounds(cmd_keys(rows@), cmd_key(verb, Outcome::Error));
        }
        let _b: usize = cmd_slot(&mut rows, verb, Outcome::Error);
        i = i + 1;
    }
    rows
}

fn modes_of(device: &DeviceConfig, global: &GlobalConfig) -> (r: Vec<PublishMode>)
    ensures
        r@ == device_modes(*device, *global),
{
    if device.mode == DeviceMode::Push {
        let r = vec![push_publish_mode(device.defaults, global.defaults)];
        assert(r@ =~= device_modes(*device, *global));
        return r;
    }
    let mut r: Vec<PublishMode> = Vec::new();
    let mut i: usize = 0;
    while i < device.poll_groups.len()
        invariant
            i <= device.poll_groups@.len(),
            r@ == modes_among(device.poll_groups@, i as nat),
        decreases device.poll_groups@.len() - i,
    {
        let mode = device.poll_groups[i].publish_mode;
        let mut seen = false;
        let mut j: usize = 0;
        while j < r.len()
            invariant
                j <= r@.len(),
                seen == (exists|k: int| 0 <= k < j && r@[k] == mode),
            decreases r@.len() - j,
        {
            if r[j] == mode {
                seen = true;
            }
            j = j + 1;
        }
        if !seen {
            r.push(mode);
        }
        i = i + 1;
    }
    if r.len() == 0 {
        r.push(PublishMode::OnChange);
        assert(r@ =~= seq![PublishMode::OnChange]);
    }
    r
}

fn inventory_row(device: &DeviceConfig, g: &PollGroup, group: String) -> (row: InventoryRow)
    requires
        group@ == g.label(),
    ensures
        row_describes(row, *device, *g),
{
    let mut arrays: u64 = 0;
    let mut writable: u64 = 0;
    let mut i: usize = 0;
    while i < g.signals.len()
        invariant
            i <= g.signals@.len(),
            arrays <= i,
            writable <= i,
            arrays == arrays_among(g.signals@, i as nat),
            writable == writable_among(*device, g.signals@, i as nat),
        decreases g.signals@.len() - i,
    {
        if g.signals[i].array_count.is_some() {
            arrays = arrays + 1;
        }
        if device.permits(g.signals[i].tag_path.as_str()) {
            writable = writable + 1;
        }
        i = i + 1;
    }
    let configured: u64 = g.signals.len() as u64;
    InventoryRow {
        group,
        configured_signals: configured,
        array_signals: arrays,
        writable_signals: writable,
        poll_interval_ms: g.poll_interval_ms,
        requests_per_cycle: configured,
    }
}

// ---- recording ----

impl DeviceMetrics {
    /// A connect attempt is about to be made.
    pub fn on_connect_attempt(&mut self)
        ensures
            *final(self) == (DeviceMetrics { conn: old(self).conn.attempted(), ..*old(self) }),
    {
        self.conn.connect_attempts.add(1);
    }

    /// The connect attempt succeeded. Every success but the first is a reconnect.
    pub fn on_connected(&mut self, latency_ms: u64, now: Instant)
        ensures
            *final(self) == (DeviceMetrics {
                conn: old(self).conn.opened(latency_ms, now),
                ..*old(self)
            }),
    {
        self.conn.session_connected = true;
        self.conn.connect_latency_ms = latency_ms;
        self.conn.connected_since = Some(now);
        if self.conn.ever_connected {
            self.conn.reconnects.add(1);
        }
        self.conn.ever_connected = true;
    }

    /// The connect attempt failed.
    pub fn on_connect_failure(&mut self)
        ensures
            *final(self) == (DeviceMetrics { conn: old(self).conn.refused(), ..*old(self) }),
    {
        self.conn.connect_failures.add(1);
    }

    /// The days to the end of validity of the adapter's own certificate, as just seen.
    pub fn set_cert_expiry_days(&mut self, days: i64)
        ensures
            *final(self) == (DeviceMetrics { conn: old(self).conn.expiry_seen(days), ..*old(self) }),
    {
        self.conn.cert_expiry_days = Some(days);
    }

    /// New certificate material was seen.
    pub fn on_cert_reload(&mut self)
        ensures
            *final(self) == (DeviceMetrics { conn: old(self).conn.reloaded(), ..*old(self) }),
    {
        self.conn.cert_reloads.add(1);
    }

    /// A certificate was enrolled, or could not be.
    pub fn on_est_enrollment(&mut self, ok: bool)
        ensures
            *final(self) == (DeviceMetrics { conn: old(self).conn.enrolled(ok), ..*old(self) }),
    {
        if ok {
            self.conn.est_enrollments.add(1);
        } else {
            self.conn.est_failures.add(1);
        }
    }

    /// A TLS handshake failed.
    pub fn on_tls_handshake_failure(&mut self)
        ensures
            *final(self) == (DeviceMetrics {
                conn: old(self).conn.handshake_failed(),
                ..*old(self)
            }),
    {
        self.conn.tls_handshake_failures.add(1);
    }

    /// An established session was lost.
    pub fn on_connection_dropped(&mut self, now: Instant)
        ensures
            *final(self) == (DeviceMetrics { conn: old(self).conn.dropped(now), ..*old(self) }),
    {
        self.conn.accrue(now);
        self.conn.connected_since = None;
        self.conn.session_connected = false;
        self.conn.connection_drops.add(1);
    }

    /// These metrics once a poll cycle of a group was counted.
    pub open spec fn cycle_recorded_from(
        self,
        before: DeviceMetrics,
        group: Seq<char>,
        result: Outcome,
        cycle: PollCycle,
    ) -> bool {
        let at = poll_at(before.poll@, group, result);
        let found = poll_row(before.poll@, group, result) is Some;
        let was = if found {
            before.poll@[at].counters
        } else {
            PollCounters::zero()
        };
        &&& poll_keys(self.poll@) == with_key(poll_keys(before.poll@), poll_key(group, result))
        &&& self.poll@[at].counters == cycle.counted(was)
        &&& forall|i: int|
            0 <= i < before.poll@.len() && !(found && i == at) ==> self.poll@[if !found && i >= at {
                i + 1
            } else {
                i
            }] == #[trigger] before.poll@[i]
        &&& before.in_order() ==> self.in_order()
        &&& self.rest_as_in(before)
        &&& self.conn == before.conn
        &&& self.publish == before.publish
        &&& self.command == before.command
        &&& self.io == before.io
    }

    /// These metrics once an update was counted as published or failed.
    pub open spec fn publish_recorded_from(
        self,
        before: DeviceMetrics,
        mode: PublishMode,
        samples: u64,
        from_batch: bool,
        latency_ms: u64,
        ok: bool,
    ) -> bool {
        &&& self.publish@ == ({
            let rows = with_pub_row(before.publish@, mode);
            let at = pub_at(before.publish@, mode);
            rows.update(
                at,
                PubRow {
                    mode,
                    counters: rows[at].counters.published(samples, from_batch, latency_ms, ok),
                },
            )
        })
        &&& before.in_order() ==> self.in_order()
        &&& self.rest_as_in(before)
        &&& self.conn == before.conn
        &&& self.poll == before.poll
        &&& self.command == before.command
        &&& self.io == before.io
    }

    /// One poll cycle of a group is done. A bad sample is a failed read, too.
    pub fn record_poll_cycle(&mut self, group: &str, result: Outcome, cycle: PollCycle)
        ensures
            final(self).cycle_recorded_from(*old(self), group@, result, cycle),
    {
        let at: usize = poll_slot(&mut self.poll, group, result);
        let ghost mid = self.poll@;
        let mut c = self.poll[at].counters;
        c.poll_cycles.add(1);
        c.poll_duration_ms = add_up(c.poll_duration_ms, cycle.duration_ms);
        c.tag_reads.add(cycle.tag_reads);
        c.tag_read_errors.add(cycle.bad);
        c.samples_good.add(cycle.good);
        c.samples_bad.add(cycle.bad);
        c.samples_uncertain.add(cycle.uncertain);
        c.samples_changed.add(cycle.changed);
        c.samples_suppressed.add(cycle.suppressed);
        if cycle.overran {
            c.poll_overruns.add(1);
        }
        self.poll[at].counters = c;
        proof {
            let before = old(self).poll@;
            assert(poll_keys(self.poll@) =~= poll_keys(mid));
            assert forall|i: int|
                0 <= i < before.len() && !(poll_row(before, group@, result) is Some && i
                    == at) implies self.poll@[if !(poll_row(before, group@, result) is Some) && i
                >= at {
                i + 1
            } else {
                i
            }] == #[trigger] before[i] by {
                if poll_row(before, group@, result) is None {
                    let all = before.insert(at as int, mid[at as int]);
                    if i >= at {
                        assert(all[i + 1] == before[i]);
                    } else {
                        assert(all[i] == before[i]);
                    }
                }
            }
            if old(self).in_order() {
                a_new_key_keeps_the_order(poll_keys(before), poll_key(group@, result));
            }
        }
    }

    /// What does not count is what it was.
    pub open spec fn rest_as_in(self, other: DeviceMetrics) -> bool {
        &&& self.instance == other.instance
        &&& self.connection_mode == other.connection_mode
        &&& self.is_push == other.is_push
        &&& self.publish_modes == other.publish_modes
        &&& self.inventory == other.inventory
        &&& self.produced_run == other.produced_run
    }

    /// One update was published, or failed to be.
    pub fn record_publish(
        &mut self,
        mode: PublishMode,
        samples: u64,
        from_batch: bool,
        latency_ms: u64,
        ok: bool,
    )
        ensures
            final(self).publish_recorded_from(*old(self), mode, samples, from_batch, latency_ms, ok),
    {
        let at: usize = pub_slot(&mut self.publish, mode);
        let ghost mid = self.publish@;
        let mut c = self.publish[at].counters;
        c.count(samples, from_batch, latency_ms, ok);
        self.publish.set(at, PubRow { mode, counters: c });
        proof {
            assert(pub_keys(self.publish@) =~= pub_keys(mid));
            if old(self).in_order() {
                a_new_key_keeps_the_order(pub_keys(old(self).publish@), pub_key(mode));
            }
        }
    }

    /// A class-1 connection was opened, or refused.
    pub fn on_forward_open(&mut self, ok: bool)
        ensures
            *final(self) == (DeviceMetrics { io: old(self).io.forward_opened(ok), ..*old(self) }),
    {
        if ok {
            self.io.forward_opens.add(1);
        } else {
            self.io.forward_open_failures.add(1);
        }
    }

    /// The class-1 connection is up, at these negotiated intervals.
    pub fn on_io_up(&mut self, o2t_api_ms: u32, t2o_api_ms: u32)
        ensures
            *final(self) == (DeviceMetrics {
                io: old(self).io.up(o2t_api_ms, t2o_api_ms),
                ..*old(self)
            }),
    {
        self.io.io_connection_state = true;
        self.io.o2t_api_ms = o2t_api_ms;
        self.io.t2o_api_ms = t2o_api_ms;
    }

    /// One command was answered.
    pub fn record_command(&mut self, verb: Verb, ok: bool, latency_ms: u64, tally: CommandTally)
        ensures
            ({
                let result = if ok {
                    Outcome::Success
                } else {
                    Outcome::Error
                };
                let rows = with_cmd_row(old(self).command@, verb, result);
                let at = cmd_at(old(self).command@, verb, result);
                final(self).command@ == rows.update(
                    at,
                    CmdRow {
                        verb,
                        result,
                        counters: answered(rows[at].counters, verb, ok, latency_ms, tally),
                    },
                )
            }),
            old(self).in_order() ==> final(self).in_order(),
            final(self).rest_as_in(*old(self)),
            final(self).conn == old(self).conn,
            final(self).poll == old(self).poll,
            final(self).publish == old(self).publish,
            final(self).io == old(self).io,
    {
        let result = if ok {
            Outcome::Success
        } else {
            Outcome::Error
        };
        let at: usize = cmd_slot(&mut self.command, verb, result);
        let ghost mid = self.command@;
        let mut c = self.command[at].counters;
        count_command(&mut c, verb, ok, latency_ms, tally);
        self.command.set(at, CmdRow { verb, result, counters: c });
        proof {
            assert(cmd_keys(self.command@) =~= cmd_keys(mid));
            if old(self).in_order() {
                a_new_key_keeps_the_order(cmd_keys(old(self).command@), cmd_key(verb, result));
            }
        }
    }

    /// One frame was accepted.
    pub fn record_frame_consumed(&mut self, sequence: u16, received_at: Instant, run_mode: bool)
        ensures
            *final(self) == (DeviceMetrics {
                io: old(self).io.consumed(sequence, received_at, run_mode),
                ..*old(self)
            }),
    {
        self.io.consume(sequence, received_at, run_mode);
    }

    /// Fold the stack's cumulative counters in; returns whether a redirect was newly refused. The
    /// sequence gaps are counted from the frames, not from here.
    pub fn record_io_stats(&mut self, s: IoLinkStats) -> (newly_refused: bool)
        ensures
            *final(self) == (DeviceMetrics { io: old(self).io.folded(s), ..*old(self) }),
            newly_refused == (crate::counters::growth(
                old(self).io.last_stats.refused_redirects,
                s.refused_redirects,
            ) > 0),
    {
        self.io.fold(s)
    }

    /// The class-1 connection was lost.
    pub fn on_io_lost(&mut self)
        ensures
            *final(self) == (DeviceMetrics { io: old(self).io.lost(), ..*old(self) }),
    {
        self.io.io_connection_state = false;
        self.io.io_timeouts.add(1);
        self.on_io_link_replaced();
    }

    /// The class-1 connection was replaced on request: nothing timed out, but the stack's counters and
    /// the sequence start again.
    pub fn on_io_link_replaced(&mut self)
        ensures
            *final(self) == (DeviceMetrics { io: old(self).io.link_replaced(), ..*old(self) }),
    {
        self.io.last_seq = None;
        self.io.last_frame_at = None;
        self.io.last_stats = IoLinkStats::default();
    }
}

/// What one poll cycle is counted as.
#[derive(Clone, Copy, Debug, PartialEq, Eq, Structural)]
pub struct PollCycle {
    pub duration_ms: u64,
    pub tag_reads: u64,
    pub overran: bool,
    pub good: u64,
    pub bad: u64,
    pub uncertain: u64,
    pub changed: u64,
    pub suppressed: u64,
}

impl PollCycle {
    /// The counters after this cycle.
    pub open spec fn counted(self, c: PollCounters) -> PollCounters {
        PollCounters {
            poll_cycles: c.poll_cycles.plus(1),
            poll_duration_ms: sum(c.poll_duration_ms, self.duration_ms),
            tag_reads: c.tag_reads.plus(self.tag_reads),
            tag_read_errors: c.tag_read_errors.plus(self.bad),
            samples_good: c.samples_good.plus(self.good),
            samples_bad: c.samples_bad.plus(self.bad),
            samples_uncertain: c.samples_uncertain.plus(self.uncertain),
            samples_changed: c.samples_changed.plus(self.changed),
            samples_suppressed: c.samples_suppressed.plus(self.suppressed),
            poll_overruns: if self.overran {
                c.poll_overruns.plus(1)
            } else {
                c.poll_overruns
            },
        }
    }
}

/// The counters after one command.
pub open spec fn answered(
    c: CmdCounters,
    verb: Verb,
    ok: bool,
    latency_ms: u64,
    tally: CommandTally,
) -> CmdCounters {
    CmdCounters {
        command_requests: c.command_requests.plus(1),
        command_latency_ms: sum(c.command_latency_ms, latency_ms),
        command_errors: if ok {
            c.command_errors
        } else {
            c.command_errors.plus(1)
        },
        read_signals: c.read_signals.plus(tally.read_signals),
        write_signals: c.write_signals.plus(tally.write_signals),
        write_failures: c.write_failures.plus(tally.write_failures),
        browsed_tags: c.browsed_tags.plus(tally.browsed_tags),
        pause_requests: if verb == Verb::Pause {
            c.pause_requests.plus(1)
        } else {
            c.pause_requests
        },
        resume_requests: if verb == Verb::Resume {
            c.resume_requests.plus(1)
        } else {
            c.resume_requests
        },
        reconnect_requests: if verb == Verb::Reconnect {
            c.reconnect_requests.plus(1)
        } else {
            c.reconnect_requests
        },
        repoll_requests: if verb == Verb::Repoll {
            c.repoll_requests.plus(1)
        } else {
            c.repoll_requests
        },
    }
}

fn count_command(c: &mut CmdCounters, verb: Verb, ok: bool, latency_ms: u64, tally: CommandTally)
    ensures
        *final(c) == answered(*old(c), verb, ok, latency_ms, tally),
{
    c.command_requests.add(1);
    c.command_latency_ms = add_up(c.command_latency_ms, latency_ms);
    if !ok {
        c.command_errors.add(1);
    }
    c.read_signals.add(tally.read_signals);
    c.write_signals.add(tally.write_signals);
    c.write_failures.add(tally.write_failures);
    c.browsed_tags.add(tally.browsed_tags);
    match verb {
        Verb::Pause => c.pause_requests.add(1),
        Verb::Resume => c.resume_requests.add(1),
        Verb::Reconnect => c.reconnect_requests.add(1),
        Verb::Repoll => c.repoll_requests.add(1),
        _ => {},
    }
}

// ---- what is recorded ----

/// A cycle is one cycle with its reads and its samples; every bad sample is a failed read, too, and an
/// overrun counts only when it overran.
pub proof fn a_cycle_is_counted_with_its_samples(cycle: PollCycle, c: PollCounters)
    ensures
        ({
            let n = cycle.counted(c);
            &&& n.poll_cycles == c.poll_cycles.plus(1)
            &&& n.poll_duration_ms == sum(c.poll_duration_ms, cycle.duration_ms)
            &&& n.tag_reads == c.tag_reads.plus(cycle.tag_reads)
            &&& n.tag_read_errors == c.tag_read_errors.plus(cycle.bad)
            &&& n.samples_good == c.samples_good.plus(cycle.good)
            &&& n.samples_bad == c.samples_bad.plus(cycle.bad)
            &&& n.samples_uncertain == c.samples_uncertain.plus(cycle.uncertain)
            &&& n.samples_changed == c.samples_changed.plus(cycle.changed)
            &&& n.samples_suppressed == c.samples_suppressed.plus(cycle.suppressed)
            &&& cycle.overran ==> n.poll_overruns == c.poll_overruns.plus(1)
            &&& !cycle.overran ==> n.poll_overruns == c.poll_overruns
        }),
{
}

/// A command is one request with its latency and what it came to; a failed one is an error, and only the
/// verb that was asked for is counted as such.
pub proof fn a_command_is_counted_under_its_verb(
    c: CmdCounters,
    verb: Verb,
    ok: bool,
    latency_ms: u64,
    tally: CommandTally,
)
    ensures
        ({
            let n = answered(c, verb, ok, latency_ms, tally);
            &&& n.command_requests == c.command_requests.plus(1)
            &&& n.command_latency_ms == sum(c.command_latency_ms, latency_ms)
            &&& ok ==> n.command_errors == c.command_errors
            &&& !ok ==> n.command_errors == c.command_errors.plus(1)
            &&& n.read_signals == c.read_signals.plus(tally.read_signals)
            &&& n.write_signals == c.write_signals.plus(tally.write_signals)
            &&& n.write_failures == c.write_failures.plus(tally.write_failures)
            &&& n.browsed_tags == c.browsed_tags.plus(tally.browsed_tags)
            &&& n.pause_requests == (if verb == Verb::Pause {
                c.pause_requests.plus(1)
            } else {
                c.pause_requests
            })
            &&& n.resume_requests == (if verb == Verb::Resume {
                c.resume_requests.plus(1)
            } else {
                c.resume_requests
            })
            &&& n.reconnect_requests == (if verb == Verb::Reconnect {
                c.reconnect_requests.plus(1)
            } else {
                c.reconnect_requests
            })
            &&& n.repoll_requests == (if verb == Verb::Repoll {
                c.repoll_requests.plus(1)
            } else {
                c.repoll_requests
            })
        }),
{
}

/// The row of a group with an outcome is the first that is theirs, if there is one.
pub proof fn a_cycle_has_one_row(rows: Seq<PollRow>, group: Seq<char>, result: Outcome)
    ensures
        match poll_row(rows, group, result) {
            Some(i) => {
                &&& 0 <= i < rows.len()
                &&& rows[i].group@ == group && rows[i].result == result
                &&& forall|j: int|
                    0 <= j < i ==> !((#[trigger] rows[j]).group@ == group && rows[j].result == result)
            },
            None => forall|j: int|
                0 <= j < rows.len() ==> !((#[trigger] rows[j]).group@ == group && rows[j].result == result),
        },
    decreases rows.len(),
{
    if rows.len() > 0 {
        let init = rows.drop_last();
        a_cycle_has_one_row(init, group, result);
        assert forall|j: int| 0 <= j < init.len() implies #[trigger] rows[j] == init[j] by {}
        if poll_row(init, group, result) is None {
            assert forall|j: int| 0 <= j < init.len() implies !((#[trigger] rows[j]).group@ == group && rows[j].result == result) by {
                assert(init[j] == rows[j]);
            }
        }
    }
}

/// The row of a publish mode is the first that is its own, if there is one.
pub proof fn a_mode_has_one_row(rows: Seq<PubRow>, mode: PublishMode)
    ensures
        match pub_row(rows, mode) {
            Some(i) => {
                &&& 0 <= i < rows.len()
                &&& rows[i].mode == mode
                &&& forall|j: int|
                    0 <= j < i ==> !((#[trigger] rows[j]).mode == mode)
            },
            None => forall|j: int|
                0 <= j < rows.len() ==> !((#[trigger] rows[j]).mode == mode),
        },
    decreases rows.len(),
{
    if rows.len() > 0 {
        let init = rows.drop_last();
        a_mode_has_one_row(init, mode);
        assert forall|j: int| 0 <= j < init.len() implies #[trigger] rows[j] == init[j] by {}
        if pub_row(init, mode) is None {
            assert forall|j: int| 0 <= j < init.len() implies !((#[trigger] rows[j]).mode == mode) by {
                assert(init[j] == rows[j]);
            }
        }
    }
}

/// The row of a command with an outcome is the first that is theirs, if there is one.
pub proof fn a_command_has_one_row(rows: Seq<CmdRow>, verb: Verb, result: Outcome)
    ensures
        match cmd_row(rows, verb, result) {
            Some(i) => {
                &&& 0 <= i < rows.len()
                &&& rows[i].verb == verb && rows[i].result == result
                &&& forall|j: int|
                    0 <= j < i ==> !((#[trigger] rows[j]).verb == verb && rows[j].result == result)
            },
            None => forall|j: int|
                0 <= j < rows.len() ==> !((#[trigger] rows[j]).verb == verb && rows[j].result == result),
        },
    decreases rows.len(),
{
    if rows.len() > 0 {
        let init = rows.drop_last();
        a_command_has_one_row(init, verb, result);
        assert forall|j: int| 0 <= j < init.len() implies #[trigger] rows[j] == init[j] by {}
        if cmd_row(init, verb, result) is None {
            assert forall|j: int| 0 <= j < init.len() implies !((#[trigger] rows[j]).verb == verb && rows[j].result == result) by {
                assert(init[j] == rows[j]);
            }
        }
    }
}

/// A cycle is counted in the row of its group and its outcome, and in no other row: every other row, and
/// everything else, is what it was.
pub proof fn a_cycle_is_counted_in_its_own_row(
    before: DeviceMetrics,
    after: DeviceMetrics,
    group: Seq<char>,
    result: Outcome,
    cycle: PollCycle,
    i: int,
)
    requires
        after.cycle_recorded_from(before, group, result, cycle),
        0 <= i < before.poll@.len(),
        before.poll@[i].group@ == group && before.poll@[i].result == result,
        forall|j: int|
            0 <= j < before.poll@.len() && j != i ==> !((#[trigger] before.poll@[j]).group@ == group
                && before.poll@[j].result == result),
    ensures
        after.poll@.len() == before.poll@.len(),
        after.poll@[i].group@ == group && after.poll@[i].result == result,
        after.poll@[i].counters == cycle.counted(before.poll@[i].counters),
        forall|j: int|
            0 <= j < before.poll@.len() && j != i ==> #[trigger] after.poll@[j] == before.poll@[j],
        after.conn == before.conn,
        after.publish == before.publish,
        after.command == before.command,
        after.io == before.io,
        after.inventory == before.inventory,
        after.instance == before.instance,
{
    a_cycle_has_one_row(before.poll@, group, result);
    let key = poll_key(group, result);
    let keys = poll_keys(before.poll@);
    assert(keys[i] == key);
    assert(keys.contains(key));
    assert(poll_keys(after.poll@) == keys);
    assert(poll_keys(after.poll@).len() == after.poll@.len());
    assert(poll_keys(after.poll@)[i] == keys[i]);
    assert(after.poll@[i].group@ == group);
    assert(after.poll@[i].result.token() == result.token());
    lemma_outcome_tokens(after.poll@[i].result, result);
}

/// A publish is counted in the row of its mode, and in no other row; everything else is what it was.
pub proof fn a_publish_is_counted_in_its_own_row(
    before: DeviceMetrics,
    after: DeviceMetrics,
    mode: PublishMode,
    samples: u64,
    from_batch: bool,
    latency_ms: u64,
    ok: bool,
    i: int,
)
    requires
        after.publish_recorded_from(before, mode, samples, from_batch, latency_ms, ok),
        0 <= i < before.publish@.len(),
        before.publish@[i].mode == mode,
        forall|j: int|
            0 <= j < before.publish@.len() && j != i ==> (#[trigger] before.publish@[j]).mode != mode,
    ensures
        after.publish@.len() == before.publish@.len(),
        after.publish@[i].mode == mode,
        after.publish@[i].counters == before.publish@[i].counters.published(
            samples,
            from_batch,
            latency_ms,
            ok,
        ),
        forall|j: int|
            0 <= j < before.publish@.len() && j != i ==> #[trigger] after.publish@[j]
                == before.publish@[j],
        after.conn == before.conn,
        after.poll == before.poll,
        after.command == before.command,
        after.io == before.io,
        after.inventory == before.inventory,
{
    a_mode_has_one_row(before.publish@, mode);
    assert(before.publish@[i].mode == mode);
}

/// What is counted for the first time gets a row of its own, with that count alone; the other rows stay.
pub proof fn a_first_publish_gets_a_row(
    before: DeviceMetrics,
    after: DeviceMetrics,
    mode: PublishMode,
    samples: u64,
    from_batch: bool,
    latency_ms: u64,
    ok: bool,
)
    requires
        after.publish_recorded_from(before, mode, samples, from_batch, latency_ms, ok),
        forall|j: int| 0 <= j < before.publish@.len() ==> (#[trigger] before.publish@[j]).mode != mode,
    ensures
        after.publish@.len() == before.publish@.len() + 1,
        exists|i: int|
            0 <= i < after.publish@.len() && (#[trigger] after.publish@[i]).mode == mode
                && after.publish@[i].counters == PubCounters::zero().published(
                samples,
                from_batch,
                latency_ms,
                ok,
            ),
{
    a_mode_has_one_row(before.publish@, mode);
    crate::rows::lemma_place_bounds(pub_keys(before.publish@), pub_key(mode));
    let at = pub_at(before.publish@, mode);
    assert(0 <= at <= before.publish@.len());
    assert(after.publish@[at].mode == mode);
}

// ---- what a device starts with ----

proof fn lemma_arrays(signals: Seq<SignalSpec>, n: nat)
    requires
        n <= signals.len(),
    ensures
        arrays_among(signals, n) == signals.take(n as int).filter(
            |s: SignalSpec| s.array_count is Some,
        ).len(),
    decreases n,
{
    reveal(Seq::filter);
    if n > 0 {
        lemma_arrays(signals, (n - 1) as nat);
        assert(signals.take(n as int).drop_last() =~= signals.take(n - 1));
        assert(signals.take(n as int).last() == signals[n - 1]);
    }
}

proof fn lemma_writable(device: DeviceConfig, signals: Seq<SignalSpec>, n: nat)
    requires
        n <= signals.len(),
    ensures
        writable_among(device, signals, n) == signals.take(n as int).filter(
            |s: SignalSpec| texts(device.write_allow@).contains(s.tag_path@),
        ).len(),
    decreases n,
{
    reveal(Seq::filter);
    if n > 0 {
        lemma_writable(device, signals, (n - 1) as nat);
        assert(signals.take(n as int).drop_last() =~= signals.take(n - 1));
        assert(signals.take(n as int).last() == signals[n - 1]);
    }
}

/// The inventory of a group is that of its own signals: how many there are, how many of them are arrays,
/// how many the write list of the device names, the group's own cadence, and one request for each signal.
pub proof fn an_inventory_counts_its_own_group(
    row: InventoryRow,
    device: DeviceConfig,
    group: PollGroup,
)
    requires
        row_describes(row, device, group),
    ensures
        group.id matches Some(id) ==> row.group@ == id@,
        group.id is None ==> row.group@ == "group"@,
        row.configured_signals == group.signals@.len(),
        row.array_signals == group.signals@.filter(|s: SignalSpec| s.array_count is Some).len(),
        row.writable_signals == group.signals@.filter(
            |s: SignalSpec| texts(device.write_allow@).contains(s.tag_path@),
        ).len(),
        row.poll_interval_ms == group.poll_interval_ms,
        row.requests_per_cycle == group.signals@.len(),
{
    let s = group.signals@;
    lemma_arrays(s, s.len());
    lemma_writable(device, s, s.len());
    assert(s.take(s.len() as int) =~= s);
}

proof fn lemma_modes(groups: Seq<PollGroup>, n: nat, m: PublishMode)
    requires
        n <= groups.len(),
    ensures
        modes_among(groups, n).no_duplicates(),
        modes_among(groups, n).contains(m) <==> exists|i: int|
            0 <= i < n && (#[trigger] groups[i]).publish_mode == m,
    decreases n,
{
    if n > 0 {
        lemma_modes(groups, (n - 1) as nat, m);
        let before = modes_among(groups, (n - 1) as nat);
        let now = modes_among(groups, n);
        let last = groups[n - 1].publish_mode;
        if before.contains(m) {
            let k = choose|k: int| 0 <= k < before.len() && before[k] == m;
            assert(now[k] == m);
        } else if m == last {
            assert(now[before.len() as int] == m);
        }
        if now.contains(m) && !before.contains(m) {
            let k = choose|k: int| 0 <= k < now.len() && now[k] == m;
            if k < before.len() {
                assert(before[k] == m);
            }
            assert(groups[n - 1].publish_mode == m);
        }
        if exists|i: int| 0 <= i < n && (#[trigger] groups[i]).publish_mode == m {
            let i = choose|i: int| 0 <= i < n && (#[trigger] groups[i]).publish_mode == m;
            if i < n - 1 {
                assert(before.contains(m));
            }
        }
        if !before.contains(last) {
            assert forall|a: int, b: int|
                0 <= a < now.len() && 0 <= b < now.len() && a != b implies now[a] != now[b] by {
                if a < before.len() && b < before.len() {
                    assert(before[a] != before[b]);
                } else if a < before.len() {
                    assert(before.contains(before[a]));
                } else {
                    assert(before.contains(before[b]));
                }
            }
        }
    }
}

/// A polled device emits under the modes of its groups, each once, and under on change where it has none; a
/// push device under the one mode it publishes in.
pub proof fn a_device_emits_under_the_modes_of_its_groups(
    device: DeviceConfig,
    global: GlobalConfig,
    m: PublishMode,
)
    ensures
        device_modes(device, global).no_duplicates(),
        device.mode is Push ==> (device_modes(device, global).contains(m) <==> m == push_mode(
            device.defaults,
            global.defaults,
        )),
        device.mode is Poll && device.poll_groups@.len() > 0 ==> (device_modes(device, global).contains(
            m,
        ) <==> exists|i: int|
            0 <= i < device.poll_groups@.len() && (#[trigger] device.poll_groups@[i]).publish_mode
                == m),
        device.mode is Poll && device.poll_groups@.len() == 0 ==> (device_modes(
            device,
            global,
        ).contains(m) <==> m is OnChange),
{
    let groups = device.poll_groups@;
    let modes = device_modes(device, global);
    lemma_modes(groups, groups.len(), m);
    if groups.len() > 0 {
        lemma_modes(groups, groups.len(), groups[0].publish_mode);
        assert(modes_among(groups, groups.len()).len() > 0) by {
            assert(modes_among(groups, groups.len()).contains(groups[0].publish_mode));
        }
    }
    if device.mode is Push || groups.len() == 0 {
        assert(modes[0] == modes.last());
        assert(modes.contains(modes[0]));
    }
}

proof fn lemma_starting_keys(groups: Seq<PollGroup>, n: nat, key: (Seq<char>, Seq<char>))
    requires
        n <= groups.len(),
    ensures
        starting_keys(groups, n).contains(key) <==> exists|i: int|
            0 <= i < n && (#[trigger] groups[i]).label() == key.0 && (key.1 == "success"@ || key.1
                == "error"@),
    decreases n,
{
    if n > 0 {
        lemma_starting_keys(groups, (n - 1) as nat, key);
        let g = groups[n - 1].label();
        let before = starting_keys(groups, (n - 1) as nat);
        let mid = with_key(before, poll_key(g, Outcome::Success));
        crate::rows::a_key_is_put_once(before, poll_key(g, Outcome::Success), key);
        crate::rows::a_key_is_put_once(mid, poll_key(g, Outcome::Error), key);
        crate::rows::a_key_is_put_once(
            mid,
            poll_key(g, Outcome::Error),
            poll_key(g, Outcome::Success),
        );
        if starting_keys(groups, n).contains(key) {
            if before.contains(key) {
                let i = choose|i: int|
                    0 <= i < n - 1 && (#[trigger] groups[i]).label() == key.0 && (key.1 == "success"@
                        || key.1 == "error"@);
                assert(groups[i].label() == key.0);
            } else {
                assert(groups[n - 1].label() == key.0);
            }
        }
        if exists|i: int|
            0 <= i < n && (#[trigger] groups[i]).label() == key.0 && (key.1 == "success"@ || key.1
                == "error"@) {
            let i = choose|i: int|
                0 <= i < n && (#[trigger] groups[i]).label() == key.0 && (key.1 == "success"@ || key.1
                    == "error"@);
            if i < n - 1 {
                assert(before.contains(key));
            } else {
                assert(key == poll_key(g, Outcome::Success) || key == poll_key(g, Outcome::Error));
            }
        }
    }
}

proof fn lemma_starting_modes(modes: Seq<PublishMode>, n: nat, key: (Seq<char>, Seq<char>))
    requires
        n <= modes.len(),
    ensures
        starting_modes(modes, n).contains(key) <==> exists|i: int|
            0 <= i < n && pub_key(#[trigger] modes[i]) == key,
    decreases n,
{
    if n > 0 {
        lemma_starting_modes(modes, (n - 1) as nat, key);
        let before = starting_modes(modes, (n - 1) as nat);
        crate::rows::a_key_is_put_once(before, pub_key(modes[n - 1]), key);
        if starting_modes(modes, n).contains(key) {
            if before.contains(key) {
                let i = choose|i: int| 0 <= i < n - 1 && pub_key(#[trigger] modes[i]) == key;
                assert(pub_key(modes[i]) == key);
            } else {
                assert(pub_key(modes[n - 1]) == key);
            }
        }
    }
}

proof fn lemma_starting_commands(verbs: Seq<Verb>, n: nat, key: (Seq<char>, Seq<char>))
    requires
        n <= verbs.len(),
    ensures
        starting_commands(verbs, n).contains(key) <==> exists|i: int|
            0 <= i < n && (#[trigger] verbs[i]).token() == key.0 && (key.1 == "success"@ || key.1
                == "error"@),
    decreases n,
{
    if n > 0 {
        lemma_starting_commands(verbs, (n - 1) as nat, key);
        let v = verbs[n - 1];
        let before = starting_commands(verbs, (n - 1) as nat);
        let mid = with_key(before, cmd_key(v, Outcome::Success));
        crate::rows::a_key_is_put_once(before, cmd_key(v, Outcome::Success), key);
        crate::rows::a_key_is_put_once(mid, cmd_key(v, Outcome::Error), key);
        crate::rows::a_key_is_put_once(
            mid,
            cmd_key(v, Outcome::Error),
            cmd_key(v, Outcome::Success),
        );
        if starting_commands(verbs, n).contains(key) {
            if before.contains(key) {
                let i = choose|i: int|
                    0 <= i < n - 1 && (#[trigger] verbs[i]).token() == key.0 && (key.1 == "success"@
                        || key.1 == "error"@);
                assert(verbs[i].token() == key.0);
            } else {
                assert(verbs[n - 1].token() == key.0);
            }
        }
        if exists|i: int|
            0 <= i < n && (#[trigger] verbs[i]).token() == key.0 && (key.1 == "success"@ || key.1
                == "error"@) {
            let i = choose|i: int|
                0 <= i < n && (#[trigger] verbs[i]).token() == key.0 && (key.1 == "success"@ || key.1
                    == "error"@);
            if i < n - 1 {
                assert(before.contains(key));
            } else {
                assert(key == cmd_key(v, Outcome::Success) || key == cmd_key(v, Outcome::Error));
            }
        }
    }
}

/// A device starts with a row at zero for each of its groups with either outcome, for each mode it emits
/// under, and for each command with either outcome, and with no row of any other group or mode.
pub proof fn a_device_starts_with_every_row(
    dm: DeviceMetrics,
    device: DeviceConfig,
    global: GlobalConfig,
    g: int,
    verb: Verb,
    result: Outcome,
    mode: PublishMode,
)
    requires
        dm.starts(device, global),
    ensures
        0 <= g < device.poll_groups@.len() ==> exists|i: int|
            0 <= i < dm.poll@.len() && (#[trigger] dm.poll@[i]).group@ == device.poll_groups@[g].label()
                && dm.poll@[i].result == result && dm.poll@[i].counters == PollCounters::zero(),
        forall|i: int|
            0 <= i < dm.poll@.len() ==> exists|k: int|
                0 <= k < device.poll_groups@.len() && (#[trigger] device.poll_groups@[k]).label() == (
                #[trigger] dm.poll@[i]).group@,
        dm.publish_modes@.contains(mode) <==> exists|i: int|
            0 <= i < dm.publish@.len() && (#[trigger] dm.publish@[i]).mode == mode,
        exists|i: int|
            0 <= i < dm.command@.len() && (#[trigger] dm.command@[i]).verb == verb
                && dm.command@[i].result == result && dm.command@[i].counters == CmdCounters::zero(),
        dm.conn == ConnCounters::zero(),
        dm.io == IoCounters::zero(),
        device.connected ==> dm.connection_mode@ == "connected"@,
        !device.connected ==> dm.connection_mode@ == "unconnected"@,
        dm.instance@ == device.id@,
        dm.is_push <==> device.mode is Push,
{
    let groups = device.poll_groups@;
    let keys = poll_keys(dm.poll@);
    if 0 <= g < groups.len() {
        let key = poll_key(groups[g].label(), result);
        lemma_starting_keys(groups, groups.len(), key);
        assert(groups[g].label() == key.0);
        assert(keys.contains(key));
        let i = choose|i: int| 0 <= i < keys.len() && keys[i] == key;
        lemma_outcome_tokens(dm.poll@[i].result, result);
        assert(dm.poll@[i].group@ == groups[g].label());
    }
    assert forall|i: int| 0 <= i < dm.poll@.len() implies exists|k: int|
        0 <= k < groups.len() && (#[trigger] groups[k]).label() == (#[trigger] dm.poll@[i]).group@ by {
        assert(keys.contains(keys[i]));
        lemma_starting_keys(groups, groups.len(), keys[i]);
        let k = choose|k: int|
            0 <= k < groups.len() && (#[trigger] groups[k]).label() == keys[i].0 && (keys[i].1
                == "success"@ || keys[i].1 == "error"@);
        assert(groups[k].label() == dm.poll@[i].group@);
    }
    let modes = dm.publish_modes@;
    let pubs = pub_keys(dm.publish@);
    lemma_starting_modes(modes, modes.len(), pub_key(mode));
    if modes.contains(mode) {
        let k = choose|k: int| 0 <= k < modes.len() && modes[k] == mode;
        assert(pub_key(modes[k]) == pub_key(mode));
        assert(pubs.contains(pub_key(mode)));
        let i = choose|i: int| 0 <= i < pubs.len() && pubs[i] == pub_key(mode);
        lemma_mode_tokens(dm.publish@[i].mode, mode);
        assert(dm.publish@[i].mode == mode);
    }
    if exists|i: int| 0 <= i < dm.publish@.len() && (#[trigger] dm.publish@[i]).mode == mode {
        let i = choose|i: int| 0 <= i < dm.publish@.len() && (#[trigger] dm.publish@[i]).mode == mode;
        assert(pubs[i] == pub_key(mode));
        assert(pubs.contains(pub_key(mode)));
        let k = choose|k: int| 0 <= k < modes.len() && pub_key(#[trigger] modes[k]) == pub_key(mode);
        lemma_mode_tokens(modes[k], mode);
        assert(modes[k] == mode);
    }
    let verbs = all_verbs();
    let cmds = cmd_keys(dm.command@);
    let key = cmd_key(verb, result);
    lemma_starting_commands(verbs, verbs.len(), key);
    assert(verbs[0] == verb || verbs[1] == verb || verbs[2] == verb || verbs[3] == verb || verbs[4]
        == verb || verbs[5] == verb || verbs[6] == verb || verbs[7] == verb || verbs[8] == verb);
    let v = choose|v: int| 0 <= v < verbs.len() && verbs[v] == verb;
    assert(verbs[v].token() == key.0);
    assert(cmds.contains(key));
    let i = choose|i: int| 0 <= i < cmds.len() && cmds[i] == key;
    lemma_verb_tokens(dm.command@[i].verb, verb);
    lemma_outcome_tokens(dm.command@[i].result, result);
    assert(dm.command@[i].verb == verb);
}

/// A command is counted in the row of its verb and its outcome, and in no other row; one that has no row yet
/// gets one that holds this count alone.
pub proof fn a_command_is_counted_in_its_own_row(
    before: Seq<CmdRow>,
    after: Seq<CmdRow>,
    verb: Verb,
    ok: bool,
    latency_ms: u64,
    tally: CommandTally,
) -> (at: int)
    requires
        ({
            let result = if ok {
                Outcome::Success
            } else {
                Outcome::Error
            };
            let rows = with_cmd_row(before, verb, result);
            let at = cmd_at(before, verb, result);
            after == rows.update(
                at,
                CmdRow {
                    verb,
                    result,
                    counters: answered(rows[at].counters, verb, ok, latency_ms, tally),
                },
            )
        }),
    ensures
        0 <= at < after.len(),
        after[at].verb == verb,
        after[at].result is Success <==> ok,
        (exists|i: int|
            0 <= i < before.len() && (#[trigger] before[i]).verb == verb && (before[i].result is Success
                <==> ok)) ==> {
            &&& after.len() == before.len()
            &&& before[at].verb == verb && (before[at].result is Success <==> ok)
            &&& after[at].counters == answered(before[at].counters, verb, ok, latency_ms, tally)
            &&& forall|j: int|
                0 <= j < before.len() && j != at ==> #[trigger] after[j] == before[j]
        },
        !(exists|i: int|
            0 <= i < before.len() && (#[trigger] before[i]).verb == verb && (before[i].result is Success
                <==> ok)) ==> {
            &&& after.len() == before.len() + 1
            &&& after.remove(at) == before
            &&& after[at].counters == answered(CmdCounters::zero(), verb, ok, latency_ms, tally)
        },
{
    let result = if ok {
        Outcome::Success
    } else {
        Outcome::Error
    };
    let at = cmd_at(before, verb, result);
    a_command_has_one_row(before, verb, result);
    crate::rows::lemma_place_bounds(cmd_keys(before), cmd_key(verb, result));
    if cmd_row(before, verb, result) is None {
        assert(after.remove(at) =~= before);
    } else {
        assert(before[at].verb == verb);
    }
    at
}

} // verus!
