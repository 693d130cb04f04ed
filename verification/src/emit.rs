//! What is defined at startup and what each emit carries.

use vstd::prelude::*;

use crate::clock::Instant;
use crate::counters::{
    flag, measured, nothing_measured, put, put_flag, value_of, Amount, CmdCounters, ConnCounters,
    IoCounters, Measure, PollCounters, PubCounters,
};
use crate::device_metrics::{
    cmd_keys, poll_keys, pub_keys, CmdRow, DeviceMetrics, InventoryRow, PollRow, PubRow,
};
use crate::health::{Health, LinkState};
use crate::metrics::{all_verbs, command_verbs, Family, FamilyDefV, Outcome};
use crate::rows::{key_before, text_before};
use crate::text::owned;

verus! {

/// One dimension of an emit.
#[derive(Debug)]
pub struct Dimension {
    pub key: String,
    pub value: String,
}

/// One family under one combination of dimensions.
#[derive(Debug)]
pub struct Combo {
    pub family: Family,
    pub dimensions: Vec<Dimension>,
}

/// One emit: a family under one combination of dimensions, with its values.
#[derive(Debug)]
pub struct Emission {
    pub family: Family,
    pub dimensions: Vec<Dimension>,
    pub values: Vec<Measure>,
    /// Whether it goes out at once, or with what is collected for the next flush.
    pub immediate: bool,
}

/// One family under one combination of dimensions.
pub struct ComboV {
    pub family: Family,
    pub dimensions: Seq<(Seq<char>, Seq<char>)>,
}

/// One emit.
pub struct EmissionV {
    pub family: Family,
    pub dimensions: Seq<(Seq<char>, Seq<char>)>,
    pub values: Seq<(Seq<char>, Amount)>,
    pub immediate: bool,
}

/// The keys and values of a list of dimensions.
pub open spec fn dims(s: Seq<Dimension>) -> Seq<(Seq<char>, Seq<char>)> {
    Seq::new(s.len(), |i: int| (s[i].key@, s[i].value@))
}

impl View for Combo {
    type V = ComboV;

    open spec fn view(&self) -> ComboV {
        ComboV { family: self.family, dimensions: dims(self.dimensions@) }
    }
}

impl View for Emission {
    type V = EmissionV;

    open spec fn view(&self) -> EmissionV {
        EmissionV {
            family: self.family,
            dimensions: dims(self.dimensions@),
            values: measured(self.values@),
            immediate: self.immediate,
        }
    }
}

/// The combinations of a list, in order.
pub open spec fn combos(s: Seq<Combo>) -> Seq<ComboV> {
    Seq::new(s.len(), |i: int| s[i]@)
}

/// The emits of a list, in order.
pub open spec fn emissions(s: Seq<Emission>) -> Seq<EmissionV> {
    Seq::new(s.len(), |i: int| s[i]@)
}

fn dim(key: &str, value: &str) -> (d: Dimension)
    ensures
        d.key@ == key@,
        d.value@ == value@,
{
    Dimension { key: owned(key), value: owned(value) }
}

fn dims_of_1(k1: &str, v1: &str) -> (r: Vec<Dimension>)
    ensures
        dims(r@) == seq![(k1@, v1@)],
{
    let mut r: Vec<Dimension> = Vec::new();
    r.push(dim(k1, v1));
    assert(dims(r@) =~= seq![(k1@, v1@)]);
    r
}

fn dims_of_2(k1: &str, v1: &str, k2: &str, v2: &str) -> (r: Vec<Dimension>)
    ensures
        dims(r@) == seq![(k1@, v1@), (k2@, v2@)],
{
    let mut r: Vec<Dimension> = Vec::new();
    r.push(dim(k1, v1));
    r.push(dim(k2, v2));
    assert(dims(r@) =~= seq![(k1@, v1@), (k2@, v2@)]);
    r
}

fn dims_of_3(k1: &str, v1: &str, k2: &str, v2: &str, k3: &str, v3: &str) -> (r: Vec<Dimension>)
    ensures
        dims(r@) == seq![(k1@, v1@), (k2@, v2@), (k3@, v3@)],
{
    let mut r: Vec<Dimension> = Vec::new();
    r.push(dim(k1, v1));
    r.push(dim(k2, v2));
    r.push(dim(k3, v3));
    assert(dims(r@) =~= seq![(k1@, v1@), (k2@, v2@), (k3@, v3@)]);
    r
}

pub open spec fn outcome_at(i: int) -> Outcome {
    if i == 0 {
        Outcome::Success
    } else {
        Outcome::Error
    }
}

impl DeviceMetrics {
    pub open spec fn health_combo(self) -> ComboV {
        ComboV { family: Family::Health, dimensions: seq![("instance"@, self.instance@)] }
    }

    pub open spec fn connection_combo(self) -> ComboV {
        ComboV {
            family: Family::Connection,
            dimensions: seq![
                ("instance"@, self.instance@),
                ("connectionMode"@, self.connection_mode@),
            ],
        }
    }

    pub open spec fn publish_combo(self, mode: Seq<char>) -> ComboV {
        ComboV {
            family: Family::Publish,
            dimensions: seq![("instance"@, self.instance@), ("publishMode"@, mode)],
        }
    }

    pub open spec fn command_combo(self, verb: Seq<char>, result: Outcome) -> ComboV {
        ComboV {
            family: Family::Command,
            dimensions: seq![
                ("instance"@, self.instance@),
                ("verb"@, verb),
                ("result"@, result.token()),
            ],
        }
    }

    pub open spec fn io_combo(self) -> ComboV {
        ComboV { family: Family::Io, dimensions: seq![("instance"@, self.instance@)] }
    }

    pub open spec fn inventory_combo(self, group: Seq<char>) -> ComboV {
        ComboV {
            family: Family::Inventory,
            dimensions: seq![("instance"@, self.instance@), ("pollGroup"@, group)],
        }
    }

    pub open spec fn poll_combo(self, group: Seq<char>, result: Outcome) -> ComboV {
        ComboV {
            family: Family::Poll,
            dimensions: seq![
                ("instance"@, self.instance@),
                ("pollGroup"@, group),
                ("result"@, result.token()),
            ],
        }
    }

    /// The combinations of the publish modes.
    pub open spec fn publish_combos(self) -> Seq<ComboV> {
        Seq::new(self.publish_modes@.len(), |i: int| self.publish_combo(self.publish_modes@[i].token()))
    }

    /// The combinations of the commands: each with either outcome.
    pub open spec fn command_combos(self) -> Seq<ComboV> {
        Seq::new(
            18,
            |i: int| self.command_combo(all_verbs()[i / 2].token(), outcome_at(i % 2)),
        )
    }

    /// The combinations of the poll groups: the inventory, then either outcome.
    pub open spec fn group_combos(self) -> Seq<ComboV> {
        Seq::new(
            3 * self.inventory@.len(),
            |i: int|
                if i % 3 == 0 {
                    self.inventory_combo(self.inventory@[i / 3].group@)
                } else {
                    self.poll_combo(self.inventory@[i / 3].group@, outcome_at(i % 3 - 1))
                },
        )
    }

    /// Every combination this device emits. A push device has the class-1 family in place of the poll
    /// families.
    pub open spec fn defined(self) -> Seq<ComboV> {
        seq![self.health_combo(), self.connection_combo()] + self.publish_combos()
            + self.command_combos() + (if self.is_push {
            seq![self.io_combo()]
        } else {
            self.group_combos()
        })
    }

    /// Every combination this device emits, to be defined at startup.
    pub fn define_all(&self) -> (out: Vec<Combo>)
        ensures
            combos(out@) == self.defined(),
    {
        let inst = self.instance.as_str();
        let mut out: Vec<Combo> = Vec::new();
        out.push(Combo { family: Family::Health, dimensions: dims_of_1("instance", inst) });
        out.push(
            Combo {
                family: Family::Connection,
                dimensions: dims_of_2(
                    "instance",
                    inst,
                    "connectionMode",
                    self.connection_mode.as_str(),
                ),
            },
        );
        let ghost head = seq![self.health_combo(), self.connection_combo()];
        assert(combos(out@) =~= head + self.publish_combos().take(0));
        let mut i: usize = 0;
        while i < self.publish_modes.len()
            invariant
                i <= self.publish_modes@.len(),
                inst@ == self.instance@,
                combos(out@) == head + self.publish_combos().take(i as int),
            decreases self.publish_modes@.len() - i,
        {
            let ghost sofar = out@;
            let c = Combo {
                family: Family::Publish,
                dimensions: dims_of_2("instance", inst, "publishMode", self.publish_modes[i].as_str()),
            };
            out.push(c);
            assert(combos(out@) =~= combos(sofar).push(c@));
            assert(self.publish_combos().take(i + 1) =~= self.publish_combos().take(i as int).push(
                self.publish_combos()[i as int],
            ));
            assert(combos(out@) =~= head + self.publish_combos().take(i + 1));
            i = i + 1;
        }
        assert(self.publish_combos().take(i as int) =~= self.publish_combos());
        let verbs = command_verbs();
        let ghost head2 = head + self.publish_combos();
        assert(combos(out@) =~= head2 + self.command_combos().take(0));
        let mut v: usize = 0;
        while v < verbs.len()
            invariant
                v <= verbs@.len(),
                verbs@ == all_verbs(),
                inst@ == self.instance@,
                combos(out@) == head2 + self.command_combos().take(2 * v as int),
            decreases verbs@.len() - v,
        {
            let ghost sofar = out@;
            let verb = verbs[v].as_str();
            let a = Combo {
                family: Family::Command,
                dimensions: dims_of_3(
                    "instance",
                    inst,
                    "verb",
                    verb,
                    "result",
                    Outcome::Success.as_str(),
                ),
            };
            let b = Combo {
                family: Family::Command,
                dimensions: dims_of_3("instance", inst, "verb", verb, "result", Outcome::Error.as_str()),
            };
            out.push(a);
            out.push(b);
            assert(combos(out@) =~= combos(sofar).push(a@).push(b@));
            assert(self.command_combos().take(2 * v + 2) =~= self.command_combos().take(
                2 * v as int,
            ).push(self.command_combos()[2 * v as int]).push(self.command_combos()[2 * v + 1]));
            assert(combos(out@) =~= head2 + self.command_combos().take(2 * v + 2));
            v = v + 1;
        }
        assert(self.command_combos().take(2 * v as int) =~= self.command_combos());
        let ghost head3 = head2 + self.command_combos();
        if self.is_push {
            let ghost sofar = out@;
            let c = Combo { family: Family::Io, dimensions: dims_of_1("instance", inst) };
            out.push(c);
            assert(combos(out@) =~= combos(sofar).push(c@));
            assert(combos(out@) =~= self.defined());
        } else {
            assert(combos(out@) =~= head3 + self.group_combos().take(0));
            let mut g: usize = 0;
            while g < self.inventory.len()
                invariant
                    g <= self.inventory@.len(),
                    inst@ == self.instance@,
                    combos(out@) == head3 + self.group_combos().take(3 * g as int),
                decreases self.inventory@.len() - g,
            {
                let ghost sofar = out@;
                let group = self.inventory[g].group.as_str();
                let a = Combo {
                    family: Family::Inventory,
                    dimensions: dims_of_2("instance", inst, "pollGroup", group),
                };
                let b = Combo {
                    family: Family::Poll,
                    dimensions: dims_of_3(
                        "instance",
                        inst,
                        "pollGroup",
                        group,
                        "result",
                        Outcome::Success.as_str(),
                    ),
                };
                let c = Combo {
                    family: Family::Poll,
                    dimensions: dims_of_3(
                        "instance",
                        inst,
                        "pollGroup",
                        group,
                        "result",
                        Outcome::Error.as_str(),
                    ),
                };
                out.push(a);
                out.push(b);
                out.push(c);
                assert(combos(out@) =~= combos(sofar).push(a@).push(b@).push(c@));
                assert(self.group_combos().take(3 * g + 3) =~= self.group_combos().take(
                    3 * g as int,
                ).push(self.group_combos()[3 * g as int]).push(self.group_combos()[3 * g + 1]).push(
                    self.group_combos()[3 * g + 2],
                ));
                assert(combos(out@) =~= head3 + self.group_combos().take(3 * g + 3));
                g = g + 1;
            }
            assert(self.group_combos().take(3 * g as int) =~= self.group_combos());
        }
        out
    }
}

// ---- the emits ----

/// An emit of one combination.
pub open spec fn emit_of(c: ComboV, values: Seq<(Seq<char>, Amount)>) -> EmissionV {
    EmissionV { family: c.family, dimensions: c.dimensions, values, immediate: false }
}

/// That emit, to go out at once.
pub open spec fn at_once(e: EmissionV) -> EmissionV {
    EmissionV { immediate: true, ..e }
}

/// What the health family carries.
pub open spec fn health_values(h: Health) -> Seq<(Seq<char>, Amount)> {
    value_of("connectionState"@, flag(h.link == LinkState::Online)) + value_of("paused"@, flag(h.paused))
        + value_of("pollLatencyMs"@, Amount::Number(h.poll_latency_ms)) + value_of(
        "publishLatencyMs"@,
        Amount::Number(h.publish_latency_ms),
    ) + value_of("readErrors"@, Amount::Number(h.read_errors)) + value_of(
        "writeErrors"@,
        Amount::Number(h.write_errors),
    ) + value_of("staleSignals"@, Amount::Number(h.stale_signals)) + value_of(
        "reconnects"@,
        Amount::Number(h.reconnects),
    )
}

/// The health counters once they have been emitted: the interval counters start again.
pub open spec fn health_emitted(h: Health) -> Health {
    Health { read_errors: 0, write_errors: 0, reconnects: 0, ..h }
}

/// What the inventory family carries for one group.
pub open spec fn inventory_values(row: InventoryRow) -> Seq<(Seq<char>, Amount)> {
    value_of("configuredSignals"@, Amount::Number(row.configured_signals)) + value_of(
        "arraySignals"@,
        Amount::Number(row.array_signals),
    ) + value_of("writableSignals"@, Amount::Number(row.writable_signals)) + value_of(
        "configuredPollIntervalMs"@,
        Amount::Number(row.poll_interval_ms),
    ) + value_of("requestsPerCycle"@, Amount::Number(row.requests_per_cycle))
}

impl DeviceMetrics {
    /// The emits of the publish modes.
    pub open spec fn publish_emits(self) -> Seq<EmissionV> {
        Seq::new(
            self.publish@.len(),
            |i: int|
                emit_of(
                    self.publish_combo(self.publish@[i].mode.token()),
                    self.publish@[i].counters.values(),
                ),
        )
    }

    /// The emits of the commands.
    pub open spec fn command_emits(self) -> Seq<EmissionV> {
        Seq::new(
            self.command@.len(),
            |i: int|
                emit_of(
                    self.command_combo(self.command@[i].verb.token(), self.command@[i].result),
                    self.command@[i].counters.values(),
                ),
        )
    }

    /// The emits of the inventory.
    pub open spec fn inventory_emits(self) -> Seq<EmissionV> {
        Seq::new(
            self.inventory@.len(),
            |i: int|
                emit_of(
                    self.inventory_combo(self.inventory@[i].group@),
                    inventory_values(self.inventory@[i]),
                ),
        )
    }

    /// The emits of the poll cycles.
    pub open spec fn poll_emits(self) -> Seq<EmissionV> {
        Seq::new(
            self.poll@.len(),
            |i: int|
                emit_of(
                    self.poll_combo(self.poll@[i].group@, self.poll@[i].result),
                    self.poll@[i].counters.values(),
                ),
        )
    }

    fn emit_health(&self, health: &mut Health, immediate: bool) -> (e: Emission)
        ensures
            e@ == (EmissionV {
                immediate,
                ..emit_of(self.health_combo(), health_values(*old(health)))
            }),
            *final(health) == health_emitted(*old(health)),
    {
        let mut v = nothing_measured();
        put_flag(&mut v, "connectionState", health.link == LinkState::Online);
        put_flag(&mut v, "paused", health.paused);
        put(&mut v, "pollLatencyMs", Amount::Number(health.poll_latency_ms));
        put(&mut v, "publishLatencyMs", Amount::Number(health.publish_latency_ms));
        put(&mut v, "readErrors", Amount::Number(health.read_errors));
        put(&mut v, "writeErrors", Amount::Number(health.write_errors));
        put(&mut v, "staleSignals", Amount::Number(health.stale_signals));
        put(&mut v, "reconnects", Amount::Number(health.reconnects));
        health.read_errors = 0;
        health.write_errors = 0;
        health.reconnects = 0;
        assert(measured(v@) =~= health_values(*old(health)));
        Emission {
            family: Family::Health,
            dimensions: dims_of_1("instance", self.instance.as_str()),
            values: v,
            immediate,
        }
    }

    fn emit_connection(&mut self, now: Instant, immediate: bool) -> (e: Emission)
        ensures
            e@ == (EmissionV {
                immediate,
                ..emit_of(old(self).connection_combo(), old(self).conn.accrued(now).values())
            }),
            *final(self) == (DeviceMetrics {
                conn: old(self).conn.accrued(now).emitted(),
                ..*old(self)
            }),
    {
        let values = self.conn.drain(now);
        Emission {
            family: Family::Connection,
            dimensions: dims_of_2(
                "instance",
                self.instance.as_str(),
                "connectionMode",
                self.connection_mode.as_str(),
            ),
            values,
            immediate,
        }
    }

    fn emit_io(&mut self, immediate: bool) -> (e: Emission)
        ensures
            e@ == (EmissionV { immediate, ..emit_of(old(self).io_combo(), old(self).io.values()) }),
            *final(self) == (DeviceMetrics { io: old(self).io.emitted(), ..*old(self) }),
    {
        let values = self.io.drain();
        Emission {
            family: Family::Io,
            dimensions: dims_of_1("instance", self.instance.as_str()),
            values,
            immediate,
        }
    }

    fn emit_publish(&mut self, out: &mut Vec<Emission>)
        ensures
            emissions(final(out)@) == emissions(old(out)@) + old(self).publish_emits(),
            final(self).publish@ == Seq::new(
                old(self).publish@.len(),
                |i: int|
                    PubRow {
                        mode: old(self).publish@[i].mode,
                        counters: old(self).publish@[i].counters.emitted(),
                    },
            ),
            final(self).rest_as_in(*old(self)),
            final(self).conn == old(self).conn,
            final(self).poll == old(self).poll,
            final(self).command == old(self).command,
            final(self).io == old(self).io,
    {
        let ghost before = *self;
        let ghost base = emissions(out@);
        assert(base + before.publish_emits().take(0) =~= base);
        let mut i: usize = 0;
        while i < self.publish.len()
            invariant
                i <= self.publish@.len(),
                self.publish@.len() == before.publish@.len(),
                self.rest_as_in(before),
                self.conn == before.conn,
                self.poll == before.poll,
                self.command == before.command,
                self.io == before.io,
                forall|j: int|
                    0 <= j < i ==> #[trigger] self.publish@[j] == (PubRow {
                        mode: before.publish@[j].mode,
                        counters: before.publish@[j].counters.emitted(),
                    }),
                forall|j: int|
                    i <= j < self.publish@.len() ==> #[trigger] self.publish@[j] == before.publish@[j],
                emissions(out@) == base + before.publish_emits().take(i as int),
            decreases self.publish@.len() - i,
        {
            let ghost sofar = out@;
            let mut c = self.publish[i].counters;
            let values = c.drain();
            let mode = self.publish[i].mode;
            self.publish.set(i, PubRow { mode, counters: c });
            let e = Emission {
                family: Family::Publish,
                dimensions: dims_of_2(
                    "instance",
                    self.instance.as_str(),
                    "publishMode",
                    mode.as_str(),
                ),
                values,
                immediate: false,
            };
            out.push(e);
            assert(emissions(out@) =~= emissions(sofar).push(e@));
            assert(before.publish_emits().take(i + 1) =~= before.publish_emits().take(i as int).push(
                before.publish_emits()[i as int],
            ));
            assert(emissions(out@) =~= base + before.publish_emits().take(i + 1));
            i = i + 1;
        }
        assert(before.publish_emits().take(i as int) =~= before.publish_emits());
        assert(self.publish@ =~= Seq::new(
            before.publish@.len(),
            |i: int|
                PubRow {
                    mode: before.publish@[i].mode,
                    counters: before.publish@[i].counters.emitted(),
                },
        ));
    }

    fn emit_command(&mut self, out: &mut Vec<Emission>)
        ensures
            emissions(final(out)@) == emissions(old(out)@) + old(self).command_emits(),
            final(self).command@ == Seq::new(
                old(self).command@.len(),
                |i: int|
                    CmdRow {
                        verb: old(self).command@[i].verb,
                        result: old(self).command@[i].result,
                        counters: old(self).command@[i].counters.emitted(),
                    },
            ),
            final(self).rest_as_in(*old(self)),
            final(self).conn == old(self).conn,
            final(self).poll == old(self).poll,
            final(self).publish == old(self).publish,
            final(self).io == old(self).io,
    {
        let ghost before = *self;
        let ghost base = emissions(out@);
        assert(base + before.command_emits().take(0) =~= base);
        let mut i: usize = 0;
        while i < self.command.len()
            invariant
                i <= self.command@.len(),
                self.command@.len() == before.command@.len(),
                self.rest_as_in(before),
                self.conn == before.conn,
                self.poll == before.poll,
                self.publish == before.publish,
                self.io == before.io,
                forall|j: int|
                    0 <= j < i ==> #[trigger] self.command@[j] == (CmdRow {
                        verb: before.command@[j].verb,
                        result: before.command@[j].result,
                        counters: before.command@[j].counters.emitted(),
                    }),
                forall|j: int|
                    i <= j < self.command@.len() ==> #[trigger] self.command@[j] == before.command@[j],
                emissions(out@) == base + before.command_emits().take(i as int),
            decreases self.command@.len() - i,
        {
            let ghost sofar = out@;
            let mut c = self.command[i].counters;
            let values = c.drain();
            let verb = self.command[i].verb;
            let result = self.command[i].result;
            self.command.set(i, CmdRow { verb, result, counters: c });
            let e = Emission {
                family: Family::Command,
                dimensions: dims_of_3(
                    "instance",
                    self.instance.as_str(),
                    "verb",
                    verb.as_str(),
                    "result",
                    result.as_str(),
                ),
                values,
                immediate: false,
            };
            out.push(e);
            assert(emissions(out@) =~= emissions(sofar).push(e@));
            assert(before.command_emits().take(i + 1) =~= before.command_emits().take(i as int).push(
                before.command_emits()[i as int],
            ));
            assert(emissions(out@) =~= base + before.command_emits().take(i + 1));
            i = i + 1;
        }
        assert(before.command_emits().take(i as int) =~= before.command_emits());
        assert(self.command@ =~= Seq::new(
            before.command@.len(),
            |i: int|
                CmdRow {
                    verb: before.command@[i].verb,
                    result: before.command@[i].result,
                    counters: before.command@[i].counters.emitted(),
                },
        ));
    }

    fn emit_inventory(&self, out: &mut Vec<Emission>)
        ensures
            emissions(final(out)@) == emissions(old(out)@) + self.inventory_emits(),
    {
        let ghost base = emissions(out@);
        assert(base + self.inventory_emits().take(0) =~= base);
        let mut i: usize = 0;
        while i < self.inventory.len()
            invariant
                i <= self.inventory@.len(),
                emissions(out@) == base + self.inventory_emits().take(i as int),
            decreases self.inventory@.len() - i,
        {
            let ghost sofar = out@;
            let row = &self.inventory[i];
            let mut v = nothing_measured();
            put(&mut v, "configuredSignals", Amount::Number(row.configured_signals));
            put(&mut v, "arraySignals", Amount::Number(row.array_signals));
            put(&mut v, "writableSignals", Amount::Number(row.writable_signals));
            put(&mut v, "configuredPollIntervalMs", Amount::Number(row.poll_interval_ms));
            put(&mut v, "requestsPerCycle", Amount::Number(row.requests_per_cycle));
            assert(measured(v@) =~= inventory_values(*row));
            let e = Emission {
                family: Family::Inventory,
                dimensions: dims_of_2(
                    "instance",
                    self.instance.as_str(),
                    "pollGroup",
                    row.group.as_str(),
                ),
                values: v,
                immediate: false,
            };
            out.push(e);
            assert(emissions(out@) =~= emissions(sofar).push(e@));
            assert(self.inventory_emits().take(i + 1) =~= self.inventory_emits().take(i as int).push(
                self.inventory_emits()[i as int],
            ));
            assert(emissions(out@) =~= base + self.inventory_emits().take(i + 1));
            i = i + 1;
        }
        assert(self.inventory_emits().take(i as int) =~= self.inventory_emits());
    }

    fn emit_poll(&mut self, out: &mut Vec<Emission>)
        ensures
            emissions(final(out)@) == emissions(old(out)@) + old(self).poll_emits(),
            final(self).poll_emitted(*old(self)),
            final(self).rest_as_in(*old(self)),
            final(self).conn == old(self).conn,
            final(self).command == old(self).command,
            final(self).publish == old(self).publish,
            final(self).io == old(self).io,
    {
        let ghost before = *self;
        let ghost base = emissions(out@);
        assert(base + before.poll_emits().take(0) =~= base);
        let mut i: usize = 0;
        while i < self.poll.len()
            invariant
                i <= self.poll@.len(),
                self.poll@.len() == before.poll@.len(),
                self.rest_as_in(before),
                self.conn == before.conn,
                self.command == before.command,
                self.publish == before.publish,
                self.io == before.io,
                forall|j: int|
                    0 <= j < i ==> (#[trigger] self.poll@[j]).group@ == before.poll@[j].group@
                        && self.poll@[j].result == before.poll@[j].result && self.poll@[j].counters
                        == before.poll@[j].counters.emitted(),
                forall|j: int|
                    i <= j < self.poll@.len() ==> #[trigger] self.poll@[j] == before.poll@[j],
                emissions(out@) == base + before.poll_emits().take(i as int),
            decreases self.poll@.len() - i,
        {
            let ghost sofar = out@;
            let mut c = self.poll[i].counters;
            let values = c.drain();
            self.poll[i].counters = c;
            let e = Emission {
                family: Family::Poll,
                dimensions: dims_of_3(
                    "instance",
                    self.instance.as_str(),
                    "pollGroup",
                    self.poll[i].group.as_str(),
                    "result",
                    self.poll[i].result.as_str(),
                ),
                values,
                immediate: false,
            };
            out.push(e);
            assert(emissions(out@) =~= emissions(sofar).push(e@));
            assert(before.poll_emits().take(i + 1) =~= before.poll_emits().take(i as int).push(
                before.poll_emits()[i as int],
            ));
            assert(emissions(out@) =~= base + before.poll_emits().take(i + 1));
            i = i + 1;
        }
        assert(before.poll_emits().take(i as int) =~= before.poll_emits());
    }

    /// The poll rows are those of `before`, emitted.
    pub open spec fn poll_emitted(self, before: DeviceMetrics) -> bool {
        &&& self.poll@.len() == before.poll@.len()
        &&& forall|j: int|
            0 <= j < self.poll@.len() ==> (#[trigger] self.poll@[j]).group@ == before.poll@[j].group@
                && self.poll@[j].result == before.poll@[j].result && self.poll@[j].counters
                == before.poll@[j].counters.emitted()
    }

    /// The emits of the metrics cadence, in order.
    pub open spec fn periodic_emits(self, h: Health, now: Instant) -> Seq<EmissionV> {
        seq![
            emit_of(self.health_combo(), health_values(h)),
            emit_of(self.connection_combo(), self.conn.accrued(now).values()),
        ] + self.publish_emits() + self.command_emits() + (if self.is_push {
            seq![emit_of(self.io_combo(), self.io.values())]
        } else {
            self.inventory_emits() + self.poll_emits()
        })
    }

    /// The emits of a transition, in order.
    pub open spec fn transition_emits(self, h: Health, now: Instant) -> Seq<EmissionV> {
        seq![
            at_once(emit_of(self.health_combo(), health_values(h))),
            at_once(emit_of(self.connection_combo(), self.conn.accrued(now).values())),
        ] + (if self.is_push {
            seq![at_once(emit_of(self.io_combo(), self.io.values()))]
        } else {
            Seq::empty()
        })
    }

    /// These metrics once everything was emitted.
    pub open spec fn emitted_from(self, before: DeviceMetrics, now: Instant) -> bool {
        &&& self.rest_as_in(before)
        &&& self.conn == before.conn.accrued(now).emitted()
        &&& self.publish@ == Seq::new(
            before.publish@.len(),
            |i: int|
                PubRow {
                    mode: before.publish@[i].mode,
                    counters: before.publish@[i].counters.emitted(),
                },
        )
        &&& self.command@ == Seq::new(
            before.command@.len(),
            |i: int|
                CmdRow {
                    verb: before.command@[i].verb,
                    result: before.command@[i].result,
                    counters: before.command@[i].counters.emitted(),
                },
        )
        &&& before.is_push ==> self.io == before.io.emitted() && self.poll == before.poll
        &&& !before.is_push ==> self.io == before.io && self.poll_emitted(before)
    }

    /// The full emit of the metrics cadence: every family of the device's mode.
    pub fn emit_periodic(&mut self, health: &mut Health, now: Instant) -> (out: Vec<Emission>)
        ensures
            emissions(out@) == old(self).periodic_emits(*old(health), now),
            *final(health) == health_emitted(*old(health)),
            final(self).emitted_from(*old(self), now),
    {
        let ghost before = *self;
        let mut out: Vec<Emission> = Vec::new();
        let h = self.emit_health(health, false);
        let c = self.emit_connection(now, false);
        out.push(h);
        out.push(c);
        assert(emissions(out@) =~= seq![h@, c@]);
        self.emit_publish(&mut out);
        self.emit_command(&mut out);
        if self.is_push {
            let ghost sofar = out@;
            let e = self.emit_io(false);
            out.push(e);
            assert(emissions(out@) =~= emissions(sofar) + seq![e@]);
        } else {
            self.emit_inventory(&mut out);
            self.emit_poll(&mut out);
            proof {
                let whole = seq![h@, c@] + before.publish_emits() + before.command_emits();
                assert(emissions(out@) =~= whole + (before.inventory_emits() + before.poll_emits()));
            }
        }
        out
    }

    /// These metrics once a transition was emitted.
    pub open spec fn transition_emitted_from(self, before: DeviceMetrics, now: Instant) -> bool {
        self == (DeviceMetrics {
            conn: before.conn.accrued(now).emitted(),
            io: if before.is_push {
                before.io.emitted()
            } else {
                before.io
            },
            ..before
        })
    }

    /// The emit of a transition: health and connection, and the class-1 family of a push device.
    pub fn emit_now(&mut self, health: &mut Health, now: Instant) -> (out: Vec<Emission>)
        ensures
            emissions(out@) == old(self).transition_emits(*old(health), now),
            *final(health) == health_emitted(*old(health)),
            final(self).transition_emitted_from(*old(self), now),
    {
        let mut out: Vec<Emission> = Vec::new();
        let h = self.emit_health(health, true);
        let c = self.emit_connection(now, true);
        out.push(h);
        out.push(c);
        assert(emissions(out@) =~= seq![h@, c@] + Seq::<EmissionV>::empty());
        if self.is_push {
            let e = self.emit_io(true);
            out.push(e);
            assert(emissions(out@) =~= seq![h@, c@] + seq![e@]);
        }
        out
    }
}

// ---- laws ----

/// The publish modes, the commands and the poll groups of an emit follow each other in the order of their
/// names, and of one command or group the errors come before the successes; and an emit leaves the
/// counters in that order.
pub proof fn emits_follow_the_order_of_their_names(
    d: DeviceMetrics,
    after: DeviceMetrics,
    now: Instant,
    i: int,
    j: int,
)
    requires
        d.in_order(),
        after.emitted_from(d, now),
        0 <= i < j,
    ensures
        after.in_order(),
        j < d.publish_emits().len() ==> text_before(
            d.publish_emits()[i].dimensions[1].1,
            d.publish_emits()[j].dimensions[1].1,
        ),
        j < d.command_emits().len() ==> key_before(
            (d.command_emits()[i].dimensions[1].1, d.command_emits()[i].dimensions[2].1),
            (d.command_emits()[j].dimensions[1].1, d.command_emits()[j].dimensions[2].1),
        ),
        j < d.poll_emits().len() ==> key_before(
            (d.poll_emits()[i].dimensions[1].1, d.poll_emits()[i].dimensions[2].1),
            (d.poll_emits()[j].dimensions[1].1, d.poll_emits()[j].dimensions[2].1),
        ),
        text_before(Outcome::Error.token(), Outcome::Success.token()),
{
    assert(pub_keys(after.publish@) =~= pub_keys(d.publish@));
    assert(cmd_keys(after.command@) =~= cmd_keys(d.command@));
    assert(poll_keys(after.poll@) =~= poll_keys(d.poll@));
    if j < d.publish@.len() {
        assert(key_before(pub_keys(d.publish@)[i], pub_keys(d.publish@)[j]));
    }
    if j < d.command@.len() {
        assert(key_before(cmd_keys(d.command@)[i], cmd_keys(d.command@)[j]));
    }
    if j < d.poll@.len() {
        assert(key_before(poll_keys(d.poll@)[i], poll_keys(d.poll@)[j]));
    }
    reveal_strlit("error");
    reveal_strlit("success");
    assert("error"@[0] == 'e' && "success"@[0] == 's');
}

/// The names of a list of values.
pub open spec fn value_names(v: Seq<(Seq<char>, Amount)>) -> Seq<Seq<char>> {
    Seq::new(v.len(), |i: int| v[i].0)
}

/// The names a family defines.
pub open spec fn defined_names(f: FamilyDefV) -> Seq<Seq<char>> {
    Seq::new(f.measures.len(), |i: int| f.measures[i].name)
}

/// The keys of a list of dimensions.
pub open spec fn keys(d: Seq<(Seq<char>, Seq<char>)>) -> Seq<Seq<char>> {
    Seq::new(d.len(), |i: int| d[i].0)
}

/// The measures of the adapter's own certificate.
pub open spec fn certificate_names(expiry_known: bool) -> Seq<Seq<char>> {
    seq![
        "certReloads"@ + "Total"@,
        "certReloads"@ + "Interval"@,
        "estEnrollments"@ + "Total"@,
        "estEnrollments"@ + "Interval"@,
        "estFailures"@ + "Total"@,
        "estFailures"@ + "Interval"@,
    ] + (if expiry_known {
        seq!["certExpiryDays"@]
    } else {
        Seq::empty()
    })
}

/// The names of the measures of refused redirects.
pub open spec fn redirect_names() -> Seq<Seq<char>> {
    seq!["refusedRedirects"@ + "Total"@, "refusedRedirects"@ + "Interval"@]
}

/// An emit carries the measures and the dimension keys its family defines, in that order, and no
/// others. Only a connection emit may add the measures of the adapter's own certificate, and only a class-1
/// emit those of refused redirects.
pub open spec fn as_defined(e: EmissionV) -> bool {
    &&& {
        let own = defined_names(e.family.definition());
        ||| value_names(e.values) == own
        ||| e.family == Family::Connection && exists|expiry_known: bool|
            value_names(e.values) == own + #[trigger] certificate_names(expiry_known)
        ||| e.family == Family::Io && value_names(e.values) == own + redirect_names()
    }
    &&& keys(e.dimensions) == e.family.definition().dimensions
}

/// A combination has the dimension keys its family defines, in that order.
pub open spec fn keys_as_defined(c: ComboV) -> bool {
    keys(c.dimensions) == c.family.definition().dimensions
}

/// Health, connection, publish and command emits are as their family defines them, whatever the
/// counters hold.
pub proof fn session_emits_are_as_defined(
    d: DeviceMetrics,
    h: Health,
    conn: ConnCounters,
    p: PubRow,
    c: CmdRow,
)
    ensures
        as_defined(emit_of(d.health_combo(), health_values(h))),
        as_defined(emit_of(d.connection_combo(), conn.values())),
        as_defined(emit_of(d.publish_combo(p.mode.token()), p.counters.values())),
        as_defined(emit_of(d.command_combo(c.verb.token(), c.result), c.counters.values())),
{
    assert(value_names(health_values(h)) =~= defined_names(Family::Health.definition()));
    let own = defined_names(Family::Connection.definition());
    if conn.has_certificate() {
        assert(value_names(conn.values()) =~= own + certificate_names(conn.cert_expiry_days is Some));
    } else {
        assert(value_names(conn.values()) =~= own);
    }
    assert(value_names(p.counters.values()) =~= defined_names(Family::Publish.definition()));
    assert(value_names(c.counters.values()) =~= defined_names(Family::Command.definition()));
    assert(keys(d.health_combo().dimensions) =~= Family::Health.definition().dimensions);
    assert(keys(d.connection_combo().dimensions) =~= Family::Connection.definition().dimensions);
    assert(keys(d.publish_combo(p.mode.token()).dimensions)
        =~= Family::Publish.definition().dimensions);
    assert(keys(d.command_combo(c.verb.token(), c.result).dimensions)
        =~= Family::Command.definition().dimensions);
}

/// Inventory, poll and class-1 emits are as their family defines them, whatever the counters hold.
pub proof fn data_emits_are_as_defined(
    d: DeviceMetrics,
    i: InventoryRow,
    p: PollRow,
    io: IoCounters,
)
    ensures
        as_defined(emit_of(d.inventory_combo(i.group@), inventory_values(i))),
        as_defined(emit_of(d.poll_combo(p.group@, p.result), p.counters.values())),
        as_defined(emit_of(d.io_combo(), io.values())),
{
    assert(value_names(inventory_values(i)) =~= defined_names(Family::Inventory.definition()));
    assert(value_names(p.counters.values()) =~= defined_names(Family::Poll.definition()));
    let own = defined_names(Family::Io.definition());
    if io.refused_redirects.total > 0 {
        assert(value_names(io.values()) =~= own + redirect_names());
    } else {
        assert(value_names(io.values()) =~= own);
    }
    assert(keys(d.inventory_combo(i.group@).dimensions) =~= Family::Inventory.definition().dimensions);
    assert(keys(d.poll_combo(p.group@, p.result).dimensions) =~= Family::Poll.definition().dimensions);
    assert(keys(d.io_combo().dimensions) =~= Family::Io.definition().dimensions);
}

/// Every emit of the metrics cadence and of a transition is as its family defines it.
pub proof fn every_emit_is_as_defined(d: DeviceMetrics, h: Health, now: Instant)
    ensures
        forall|i: int|
            0 <= i < d.periodic_emits(h, now).len() ==> as_defined(
                #[trigger] d.periodic_emits(h, now)[i],
            ),
        forall|i: int|
            0 <= i < d.transition_emits(h, now).len() ==> as_defined(
                #[trigger] d.transition_emits(h, now)[i],
            ),
{
    let conn = d.conn.accrued(now);
    let some_pub = arbitrary::<PubRow>();
    let some_cmd = arbitrary::<CmdRow>();
    let some_inventory = arbitrary::<InventoryRow>();
    let some_poll = arbitrary::<PollRow>();
    session_emits_are_as_defined(d, h, conn, some_pub, some_cmd);
    data_emits_are_as_defined(d, some_inventory, some_poll, d.io);
    assert forall|i: int| 0 <= i < d.publish@.len() implies as_defined(
        #[trigger] d.publish_emits()[i],
    ) by {
        session_emits_are_as_defined(d, h, conn, d.publish@[i], some_cmd);
    }
    assert forall|i: int| 0 <= i < d.command@.len() implies as_defined(
        #[trigger] d.command_emits()[i],
    ) by {
        session_emits_are_as_defined(d, h, conn, some_pub, d.command@[i]);
    }
    assert forall|i: int| 0 <= i < d.inventory@.len() implies as_defined(
        #[trigger] d.inventory_emits()[i],
    ) by {
        data_emits_are_as_defined(d, d.inventory@[i], some_poll, d.io);
    }
    assert forall|i: int| 0 <= i < d.poll@.len() implies as_defined(#[trigger] d.poll_emits()[i]) by {
        data_emits_are_as_defined(d, some_inventory, d.poll@[i], d.io);
    }
}

/// A transition goes out at once, and nothing of the metrics cadence does.
pub proof fn only_transitions_go_out_at_once(d: DeviceMetrics, h: Health, now: Instant)
    ensures
        forall|i: int|
            0 <= i < d.periodic_emits(h, now).len() ==> !(#[trigger] d.periodic_emits(
                h,
                now,
            )[i]).immediate,
        forall|i: int|
            0 <= i < d.transition_emits(h, now).len() ==> (#[trigger] d.transition_emits(
                h,
                now,
            )[i]).immediate,
{
}

/// Everything that is defined at startup has the dimension keys of its family.
pub proof fn definitions_have_their_family_keys(d: DeviceMetrics)
    ensures
        forall|i: int| 0 <= i < d.defined().len() ==> keys_as_defined(#[trigger] d.defined()[i]),
{
    assert forall|i: int| 0 <= i < d.defined().len() implies keys_as_defined(
        #[trigger] d.defined()[i],
    ) by {
        let c = d.defined()[i];
        assert(keys(c.dimensions) =~= c.family.definition().dimensions);
    }
}

/// A device emits the class-1 family or the poll families, never both.
pub proof fn a_device_is_polled_or_pushed(d: DeviceMetrics)
    ensures
        forall|i: int|
            0 <= i < d.defined().len() ==> ((#[trigger] d.defined()[i]).family == Family::Io
                ==> d.is_push) && (d.defined()[i].family == Family::Poll || d.defined()[i].family
                == Family::Inventory ==> !d.is_push),
{
}

// ---- what the emits say ----

/// Each measure of the health and the inventory carries what it is named after.
pub proof fn health_and_inventory_say_what_is_so(h: Health, g: InventoryRow)
    ensures
        ({
            let v = health_values(h);
            &&& v.len() == 8
            &&& v[0] == ("connectionState"@, Amount::Number(if h.link == LinkState::Online {
                1
            } else {
                0
            }))
            &&& v[1] == ("paused"@, Amount::Number(if h.paused {
                1
            } else {
                0
            }))
            &&& v[2] == ("pollLatencyMs"@, Amount::Number(h.poll_latency_ms))
            &&& v[3] == ("publishLatencyMs"@, Amount::Number(h.publish_latency_ms))
            &&& v[4] == ("readErrors"@, Amount::Number(h.read_errors))
            &&& v[5] == ("writeErrors"@, Amount::Number(h.write_errors))
            &&& v[6] == ("staleSignals"@, Amount::Number(h.stale_signals))
            &&& v[7] == ("reconnects"@, Amount::Number(h.reconnects))
        }),
        ({
            let v = inventory_values(g);
            &&& v.len() == 5
            &&& v[0] == ("configuredSignals"@, Amount::Number(g.configured_signals))
            &&& v[1] == ("arraySignals"@, Amount::Number(g.array_signals))
            &&& v[2] == ("writableSignals"@, Amount::Number(g.writable_signals))
            &&& v[3] == ("configuredPollIntervalMs"@, Amount::Number(g.poll_interval_ms))
            &&& v[4] == ("requestsPerCycle"@, Amount::Number(g.requests_per_cycle))
        }),
{
}

/// Each measure of a session and of a class-1 connection carries the counter it is named after.
pub proof fn connections_say_what_was_counted(c: ConnCounters, io: IoCounters)
    ensures
        ({
            let v = c.session_values();
            &&& v.len() == 13
            &&& v[0] == ("sessionConnected"@, Amount::Number(if c.session_connected {
                1
            } else {
                0
            }))
            &&& v[1] == ("connectAttempts"@ + "Total"@, Amount::Number(c.connect_attempts.total))
            &&& v[2] == ("connectAttempts"@ + "Interval"@, Amount::Number(c.connect_attempts.interval))
            &&& v[3] == ("connectFailures"@ + "Total"@, Amount::Number(c.connect_failures.total))
            &&& v[4] == ("connectFailures"@ + "Interval"@, Amount::Number(c.connect_failures.interval))
            &&& v[5] == ("connectionDrops"@ + "Total"@, Amount::Number(c.connection_drops.total))
            &&& v[6] == ("connectionDrops"@ + "Interval"@, Amount::Number(c.connection_drops.interval))
            &&& v[7] == ("reconnects"@ + "Total"@, Amount::Number(c.reconnects.total))
            &&& v[8] == ("reconnects"@ + "Interval"@, Amount::Number(c.reconnects.interval))
            &&& v[9] == ("tlsHandshakeFailures"@ + "Total"@, Amount::Number(c.tls_handshake_failures.total))
            &&& v[10] == ("tlsHandshakeFailures"@ + "Interval"@, Amount::Number(c.tls_handshake_failures.interval))
            &&& v[11] == ("connectLatencyMs"@, Amount::Number(c.connect_latency_ms))
            &&& v[12] == ("connectedDurationMs"@, Amount::Nanos(c.connected_nanos))
        }),
        ({
            let v = io.link_values();
            &&& v.len() == 23
            &&& v[0] == ("ioConnectionState"@, Amount::Number(if io.io_connection_state {
                1
            } else {
                0
            }))
            &&& v[1] == ("forwardOpens"@ + "Total"@, Amount::Number(io.forward_opens.total))
            &&& v[2] == ("forwardOpens"@ + "Interval"@, Amount::Number(io.forward_opens.interval))
            &&& v[3] == ("forwardOpenFailures"@ + "Total"@, Amount::Number(io.forward_open_failures.total))
            &&& v[4] == ("forwardOpenFailures"@ + "Interval"@, Amount::Number(io.forward_open_failures.interval))
            &&& v[5] == ("framesConsumed"@ + "Total"@, Amount::Number(io.frames_consumed.total))
            &&& v[6] == ("framesConsumed"@ + "Interval"@, Amount::Number(io.frames_consumed.interval))
            &&& v[7] == ("framesProduced"@ + "Total"@, Amount::Number(io.frames_produced.total))
            &&& v[8] == ("framesProduced"@ + "Interval"@, Amount::Number(io.frames_produced.interval))
            &&& v[9] == ("staleFramesDropped"@ + "Total"@, Amount::Number(io.stale_frames_dropped.total))
            &&& v[10] == ("staleFramesDropped"@ + "Interval"@, Amount::Number(io.stale_frames_dropped.interval))
            &&& v[11] == ("sequenceGaps"@ + "Total"@, Amount::Number(io.sequence_gaps.total))
            &&& v[12] == ("sequenceGaps"@ + "Interval"@, Amount::Number(io.sequence_gaps.interval))
            &&& v[13] == ("sizeMismatchDropped"@ + "Total"@, Amount::Number(io.size_mismatch_dropped.total))
            &&& v[14] == ("sizeMismatchDropped"@ + "Interval"@, Amount::Number(io.size_mismatch_dropped.interval))
            &&& v[15] == ("malformedFrames"@ + "Total"@, Amount::Number(io.malformed_frames.total))
            &&& v[16] == ("malformedFrames"@ + "Interval"@, Amount::Number(io.malformed_frames.interval))
            &&& v[17] == ("ioTimeouts"@ + "Total"@, Amount::Number(io.io_timeouts.total))
            &&& v[18] == ("ioTimeouts"@ + "Interval"@, Amount::Number(io.io_timeouts.interval))
            &&& v[19] == ("produceOverruns"@ + "Total"@, Amount::Number(io.produce_overruns.total))
            &&& v[20] == ("produceOverruns"@ + "Interval"@, Amount::Number(io.produce_overruns.interval))
            &&& v[21] == ("interFrameMs"@, Amount::Nanos(io.inter_frame_nanos as u128))
            &&& v[22] == ("runMode"@, Amount::Number(if io.run_mode {
                1
            } else {
                0
            }))
        }),
{
}

/// Each measure of the polls, the publishes and the commands carries the counter it is named after.
pub proof fn work_says_what_was_counted(p: PollCounters, q: PubCounters, m: CmdCounters)
    ensures
        ({
            let v = p.values();
            &&& v.len() == 19
            &&& v[0] == ("pollCycles"@ + "Total"@, Amount::Number(p.poll_cycles.total))
            &&& v[1] == ("pollCycles"@ + "Interval"@, Amount::Number(p.poll_cycles.interval))
            &&& v[2] == ("pollDurationMs"@, Amount::Number(p.poll_duration_ms))
            &&& v[3] == ("tagReads"@ + "Total"@, Amount::Number(p.tag_reads.total))
            &&& v[4] == ("tagReads"@ + "Interval"@, Amount::Number(p.tag_reads.interval))
            &&& v[5] == ("tagReadErrors"@ + "Total"@, Amount::Number(p.tag_read_errors.total))
            &&& v[6] == ("tagReadErrors"@ + "Interval"@, Amount::Number(p.tag_read_errors.interval))
            &&& v[7] == ("samplesGood"@ + "Total"@, Amount::Number(p.samples_good.total))
            &&& v[8] == ("samplesGood"@ + "Interval"@, Amount::Number(p.samples_good.interval))
            &&& v[9] == ("samplesBad"@ + "Total"@, Amount::Number(p.samples_bad.total))
            &&& v[10] == ("samplesBad"@ + "Interval"@, Amount::Number(p.samples_bad.interval))
            &&& v[11] == ("samplesUncertain"@ + "Total"@, Amount::Number(p.samples_uncertain.total))
            &&& v[12] == ("samplesUncertain"@ + "Interval"@, Amount::Number(p.samples_uncertain.interval))
            &&& v[13] == ("samplesChanged"@ + "Total"@, Amount::Number(p.samples_changed.total))
            &&& v[14] == ("samplesChanged"@ + "Interval"@, Amount::Number(p.samples_changed.interval))
            &&& v[15] == ("samplesSuppressed"@ + "Total"@, Amount::Number(p.samples_suppressed.total))
            &&& v[16] == ("samplesSuppressed"@ + "Interval"@, Amount::Number(p.samples_suppressed.interval))
            &&& v[17] == ("pollOverruns"@ + "Total"@, Amount::Number(p.poll_overruns.total))
            &&& v[18] == ("pollOverruns"@ + "Interval"@, Amount::Number(p.poll_overruns.interval))
        }),
        ({
            let v = q.values();
            &&& v.len() == 10
            &&& v[0] == ("dataMessagesPublished"@ + "Total"@, Amount::Number(q.data_messages.total))
            &&& v[1] == ("dataMessagesPublished"@ + "Interval"@, Amount::Number(q.data_messages.interval))
            &&& v[2] == ("samplesPublished"@ + "Total"@, Amount::Number(q.samples.total))
            &&& v[3] == ("samplesPublished"@ + "Interval"@, Amount::Number(q.samples.interval))
            &&& v[4] == ("publishFailures"@ + "Total"@, Amount::Number(q.failures.total))
            &&& v[5] == ("publishFailures"@ + "Interval"@, Amount::Number(q.failures.interval))
            &&& v[6] == ("batchFlushes"@ + "Total"@, Amount::Number(q.batch_flushes.total))
            &&& v[7] == ("batchFlushes"@ + "Interval"@, Amount::Number(q.batch_flushes.interval))
            &&& v[8] == ("batchSize"@, Amount::Number(q.batch_size))
            &&& v[9] == ("publishLatencyMs"@, Amount::Number(q.publish_latency_ms))
        }),
        ({
            let v = m.values();
            &&& v.len() == 21
            &&& v[0] == ("commandRequests"@ + "Total"@, Amount::Number(m.command_requests.total))
            &&& v[1] == ("commandRequests"@ + "Interval"@, Amount::Number(m.command_requests.interval))
            &&& v[2] == ("commandErrors"@ + "Total"@, Amount::Number(m.command_errors.total))
            &&& v[3] == ("commandErrors"@ + "Interval"@, Amount::Number(m.command_errors.interval))
            &&& v[4] == ("commandLatencyMs"@, Amount::Number(m.command_latency_ms))
            &&& v[5] == ("readSignals"@ + "Total"@, Amount::Number(m.read_signals.total))
            &&& v[6] == ("readSignals"@ + "Interval"@, Amount::Number(m.read_signals.interval))
            &&& v[7] == ("writeSignals"@ + "Total"@, Amount::Number(m.write_signals.total))
            &&& v[8] == ("writeSignals"@ + "Interval"@, Amount::Number(m.write_signals.interval))
            &&& v[9] == ("writeFailures"@ + "Total"@, Amount::Number(m.write_failures.total))
            &&& v[10] == ("writeFailures"@ + "Interval"@, Amount::Number(m.write_failures.interval))
            &&& v[11] == ("browsedTags"@ + "Total"@, Amount::Number(m.browsed_tags.total))
            &&& v[12] == ("browsedTags"@ + "Interval"@, Amount::Number(m.browsed_tags.interval))
            &&& v[13] == ("pauseRequests"@ + "Total"@, Amount::Number(m.pause_requests.total))
            &&& v[14] == ("pauseRequests"@ + "Interval"@, Amount::Number(m.pause_requests.interval))
            &&& v[15] == ("resumeRequests"@ + "Total"@, Amount::Number(m.resume_requests.total))
            &&& v[16] == ("resumeRequests"@ + "Interval"@, Amount::Number(m.resume_requests.interval))
            &&& v[17] == ("reconnectRequests"@ + "Total"@, Amount::Number(m.reconnect_requests.total))
            &&& v[18] == ("reconnectRequests"@ + "Interval"@, Amount::Number(m.reconnect_requests.interval))
            &&& v[19] == ("repollRequests"@ + "Total"@, Amount::Number(m.repoll_requests.total))
            &&& v[20] == ("repollRequests"@ + "Interval"@, Amount::Number(m.repoll_requests.interval))
        }),
{
}

/// What is said of the adapter's own certificate is said once there is something to say, and then with
/// every emit; the same goes for refused redirects.
pub proof fn certificates_and_redirects_are_said_once_there_are_any(c: ConnCounters, io: IoCounters)
    ensures
        c.cert_expiry_days is None && c.cert_reloads.total == 0 && c.est_enrollments.total == 0
            && c.est_failures.total == 0 ==> c.values() == c.session_values(),
        c.cert_expiry_days is Some || c.cert_reloads.total > 0 || c.est_enrollments.total > 0
            || c.est_failures.total > 0 ==> ({
            let v = c.values().skip(c.session_values().len() as int);
            &&& c.values().take(c.session_values().len() as int) == c.session_values()
            &&& v[0] == ("certReloads"@ + "Total"@, Amount::Number(c.cert_reloads.total))
            &&& v[1] == ("certReloads"@ + "Interval"@, Amount::Number(c.cert_reloads.interval))
            &&& v[2] == ("estEnrollments"@ + "Total"@, Amount::Number(c.est_enrollments.total))
            &&& v[3] == ("estEnrollments"@ + "Interval"@, Amount::Number(c.est_enrollments.interval))
            &&& v[4] == ("estFailures"@ + "Total"@, Amount::Number(c.est_failures.total))
            &&& v[5] == ("estFailures"@ + "Interval"@, Amount::Number(c.est_failures.interval))
            &&& c.cert_expiry_days matches Some(d) ==> v.len() == 7 && v[6] == (
                "certExpiryDays"@,
                Amount::Signed(d),
            )
            &&& c.cert_expiry_days is None ==> v.len() == 6
        }),
        io.refused_redirects.total == 0 ==> io.values() == io.link_values(),
        io.refused_redirects.total > 0 ==> io.values() == io.link_values() + seq![
            ("refusedRedirects"@ + "Total"@, Amount::Number(io.refused_redirects.total)),
            ("refusedRedirects"@ + "Interval"@, Amount::Number(io.refused_redirects.interval)),
        ],
{
    assert(io.values() =~= io.link_values() + io.redirect_values());
    assert(c.values().take(c.session_values().len() as int) =~= c.session_values());
    assert(c.values().skip(c.session_values().len() as int) =~= c.certificate_values());
    if io.refused_redirects.total == 0 {
        assert(io.values() =~= io.link_values());
    } else {
        assert(io.redirect_values() =~= seq![
            ("refusedRedirects"@ + "Total"@, Amount::Number(io.refused_redirects.total)),
            ("refusedRedirects"@ + "Interval"@, Amount::Number(io.refused_redirects.interval)),
        ]);
    }
    assert(!c.has_certificate() ==> c.values() =~= c.session_values());
}

/// An emit of the health starts its interval counters again, and nothing else of it.
pub proof fn an_emit_starts_the_health_intervals_again(h: Health)
    ensures
        health_emitted(h).read_errors == 0,
        health_emitted(h).write_errors == 0,
        health_emitted(h).reconnects == 0,
        health_emitted(h) == (Health {
            read_errors: 0,
            write_errors: 0,
            reconnects: 0,
            link: h.link,
            paused: h.paused,
            tls_handshake_failing: h.tls_handshake_failing,
            samples_good: h.samples_good,
            samples_bad: h.samples_bad,
            samples_uncertain: h.samples_uncertain,
            samples_changed: h.samples_changed,
            samples_suppressed: h.samples_suppressed,
            poll_cycles: h.poll_cycles,
            overruns: h.overruns,
            frames_consumed: h.frames_consumed,
            signals_published: h.signals_published,
            stale_signals: h.stale_signals,
            poll_latency_ms: h.poll_latency_ms,
            publish_latency_ms: h.publish_latency_ms,
        }),
{
}

/// The metrics cadence emits the health, the session up to now, every publish mode and every command that
/// was counted, and then the class-1 connection of a push device, or the inventory and every poll row of
/// a polled one: each once, with what it counted.
pub proof fn everything_that_was_counted_is_emitted(d: DeviceMetrics, h: Health, now: Instant, i: int)
    ensures
        ({
            let all = d.periodic_emits(h, now);
            let p = d.publish@.len() as int;
            let c = d.command@.len() as int;
            let g = d.inventory@.len() as int;
            let r = d.poll@.len() as int;
            &&& all.len() == 2 + p + c + (if d.is_push {
                1
            } else {
                g + r
            })
            &&& all[0].family == Family::Health && all[0].values == health_values(h)
            &&& all[1].family == Family::Connection && all[1].values == d.conn.accrued(now).values()
            &&& 0 <= i < p ==> all[2 + i].family == Family::Publish && all[2 + i].values
                == d.publish@[i].counters.values() && all[2 + i].dimensions == seq![
                ("instance"@, d.instance@),
                ("publishMode"@, d.publish@[i].mode.token()),
            ]
            &&& 0 <= i < c ==> all[2 + p + i].family == Family::Command && all[2 + p + i].values
                == d.command@[i].counters.values() && all[2 + p + i].dimensions == seq![
                ("instance"@, d.instance@),
                ("verb"@, d.command@[i].verb.token()),
                ("result"@, d.command@[i].result.token()),
            ]
            &&& d.is_push ==> all[2 + p + c].family == Family::Io && all[2 + p + c].values
                == d.io.values()
            &&& !d.is_push && 0 <= i < g ==> all[2 + p + c + i].family == Family::Inventory
                && all[2 + p + c + i].values == inventory_values(d.inventory@[i]) && all[2 + p + c
                + i].dimensions == seq![
                ("instance"@, d.instance@),
                ("pollGroup"@, d.inventory@[i].group@),
            ]
            &&& !d.is_push && 0 <= i < r ==> all[2 + p + c + g + i].family == Family::Poll && all[2 + p + c
                + g + i].values == d.poll@[i].counters.values() && all[2 + p + c + g + i].dimensions
                == seq![
                ("instance"@, d.instance@),
                ("pollGroup"@, d.poll@[i].group@),
                ("result"@, d.poll@[i].result.token()),
            ]
        }),
{
}

/// A transition emits the health, the session up to now and, on a push device, the class-1 connection.
pub proof fn a_transition_emits_the_link(d: DeviceMetrics, h: Health, now: Instant)
    ensures
        ({
            let all = d.transition_emits(h, now);
            &&& all.len() == (if d.is_push {
                3nat
            } else {
                2nat
            })
            &&& all[0].family == Family::Health && all[0].values == health_values(h)
            &&& all[1].family == Family::Connection && all[1].values == d.conn.accrued(now).values()
            &&& d.is_push ==> all[2].family == Family::Io && all[2].values == d.io.values()
            &&& all[0].dimensions == seq![("instance"@, d.instance@)]
            &&& all[1].dimensions == seq![
                ("instance"@, d.instance@),
                ("connectionMode"@, d.connection_mode@),
            ]
        }),
{
}

/// After an emit of everything each row counts its intervals from now on and keeps its totals; nothing
/// else of the metrics changes. A transition leaves the rows alone.
pub proof fn an_emit_changes_intervals_only(
    before: DeviceMetrics,
    after: DeviceMetrics,
    quick: DeviceMetrics,
    now: Instant,
    i: int,
)
    requires
        after.emitted_from(before, now),
        quick.transition_emitted_from(before, now),
    ensures
        after.conn == before.conn.accrued(now).emitted(),
        after.publish@.len() == before.publish@.len(),
        0 <= i < before.publish@.len() ==> after.publish@[i].mode == before.publish@[i].mode
            && after.publish@[i].counters == before.publish@[i].counters.emitted(),
        after.command@.len() == before.command@.len(),
        0 <= i < before.command@.len() ==> after.command@[i].verb == before.command@[i].verb
            && after.command@[i].result == before.command@[i].result && after.command@[i].counters
            == before.command@[i].counters.emitted(),
        before.is_push ==> after.io == before.io.emitted(),
        !before.is_push && 0 <= i < before.poll@.len() ==> after.poll@.len() == before.poll@.len()
            && after.poll@[i].group@ == before.poll@[i].group@ && after.poll@[i].counters
            == before.poll@[i].counters.emitted(),
        after.is_push == before.is_push && after.inventory == before.inventory,
        after.instance == before.instance && after.publish_modes == before.publish_modes,
        quick.conn == before.conn.accrued(now).emitted(),
        quick.publish == before.publish && quick.command == before.command && quick.poll == before.poll,
        quick.inventory == before.inventory,
        before.is_push ==> quick.io == before.io.emitted(),
        !before.is_push ==> quick.io == before.io,
{
}

/// Everything a device emits under is defined at startup: the health, the session, each publish mode, each
/// command with either outcome, and the class-1 connection of a push device or, of each group of a polled
/// one, the inventory and either outcome.
pub proof fn everything_emitted_is_defined(d: DeviceMetrics, i: int, ok: bool)
    ensures
        ({
            let all = d.defined();
            let p = d.publish_modes@.len() as int;
            let g = d.inventory@.len() as int;
            &&& all.len() == 2 + p + 18 + (if d.is_push {
                1
            } else {
                3 * g
            })
            &&& all[0] == d.health_combo() && all[1] == d.connection_combo()
            &&& 0 <= i < p ==> all[2 + i] == d.publish_combo(d.publish_modes@[i].token())
            &&& 0 <= i < 9 ==> all[2 + p + 2 * i] == d.command_combo(
                all_verbs()[i].token(),
                Outcome::Success,
            ) && all[2 + p + 2 * i + 1] == d.command_combo(all_verbs()[i].token(), Outcome::Error)
            &&& d.is_push ==> all[2 + p + 18] == d.io_combo()
            &&& !d.is_push && 0 <= i < g ==> all[2 + p + 18 + 3 * i] == d.inventory_combo(
                d.inventory@[i].group@,
            ) && all[2 + p + 18 + 3 * i + 1] == d.poll_combo(d.inventory@[i].group@, Outcome::Success)
                && all[2 + p + 18 + 3 * i + 2] == d.poll_combo(d.inventory@[i].group@, Outcome::Error)
        }),
{
}

} // verus!
