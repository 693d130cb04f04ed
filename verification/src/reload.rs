//! A configuration change as one transaction over the running instances: a diff decides which keep
//! running, which stop and which start; the swap stops, publishes the new configuration and launches, and
//! can be undone.

use vstd::prelude::*;

use crate::config::GlobalConfig;
use crate::json::{lemma_meaning, member, values, Json, JsonV, Object};
use crate::lifecycle::{running, RunningInstance};
use crate::text::{owned, texts};

verus! {

// ---- the documents ----

/// A document without its instances: what every instance binds when it is launched.
pub open spec fn without_instances(raw: JsonV) -> JsonV {
    match raw {
        JsonV::Object(m) => if m.dom().contains("component"@) {
            match m["component"@] {
                JsonV::Object(c) => JsonV::Object(
                    m.insert("component"@, JsonV::Object(c.remove("instances"@))),
                ),
                _ => raw,
            }
        } else {
            raw
        },
        _ => raw,
    }
}

/// A document without its instances.
pub fn non_instance_view(raw: &Json) -> (r: Json)
    ensures
        r@ == without_instances(raw@),
{
    proof {
        lemma_meaning(*raw);
    }
    match raw {
        Json::Object(o) => match o.get("component") {
            Some(component) => {
                proof {
                    lemma_meaning(*component);
                }
                match component {
                    Json::Object(c) => {
                        let mut inner = c.copy();
                        inner.remove("instances");
                        let mut out = o.copy();
                        out.insert("component", Json::of_object(inner));
                        Json::of_object(out)
                    },
                    _ => raw.copy(),
                }
            },
            None => raw.copy(),
        },
        _ => raw.copy(),
    }
}

/// The declared instances of a document.
pub open spec fn declared(raw: JsonV) -> Seq<JsonV> {
    match member(raw, "component"@) {
        Some(component) => match member(component, "instances"@) {
            Some(JsonV::Array(entries)) => entries,
            _ => Seq::empty(),
        },
        None => Seq::empty(),
    }
}

/// The id of a declared instance.
pub open spec fn declared_id(entry: JsonV) -> Option<Seq<char>> {
    match member(entry, "id"@) {
        Some(JsonV::Text(id)) => Some(id),
        _ => None,
    }
}

/// Whether an id is among the first of a list.
pub open spec fn has_id(list: Seq<(Seq<char>, JsonV)>, id: Seq<char>) -> bool {
    exists|i: int| 0 <= i < list.len() && (#[trigger] list[i]).0 == id
}

/// The instances among the first `n` entries: an entry without an id is none, and of two with the same
/// id the first counts.
pub open spec fn candidates_among(entries: Seq<JsonV>, n: nat) -> Seq<(Seq<char>, JsonV)>
    decreases n,
{
    if n == 0 {
        Seq::empty()
    } else {
        let before = candidates_among(entries, (n - 1) as nat);
        match declared_id(entries[n - 1]) {
            Some(id) => if has_id(before, id) {
                before
            } else {
                before.push((id, entries[n - 1]))
            },
            None => before,
        }
    }
}

/// The instances of a document, each with its subtree.
pub open spec fn candidates(raw: JsonV) -> Seq<(Seq<char>, JsonV)> {
    candidates_among(declared(raw), declared(raw).len())
}

fn knows(list: &Vec<RunningInstance>, id: &String) -> (r: bool)
    ensures
        r == has_id(running(list@), id@),
{
    let mut i: usize = 0;
    while i < list.len()
        invariant
            i <= list@.len(),
            forall|j: int| 0 <= j < i ==> (#[trigger] running(list@)[j]).0 != id@,
        decreases list@.len() - i,
    {
        if list[i].id == *id {
            assert(running(list@)[i as int].0 == id@);
            return true;
        }
        i = i + 1;
    }
    false
}

fn id_of(entry: &Json) -> (r: Option<String>)
    ensures
        match r {
            Some(id) => declared_id(entry@) == Some(id@),
            None => declared_id(entry@) is None,
        },
{
    match entry.get("id") {
        Some(v) => {
            proof {
                lemma_meaning(*v);
            }
            match v {
                Json::Text(id) => Some(id.clone()),
                _ => None,
            }
        },
        None => None,
    }
}

/// The instances of a document in the order they are declared: an entry without an id is skipped, and of
/// two with the same id the first counts.
pub fn candidate_instances(raw: &Json) -> (r: Vec<RunningInstance>)
    ensures
        running(r@) == candidates(raw@),
{
    let mut out: Vec<RunningInstance> = Vec::new();
    assert(running(out@) =~= Seq::<(Seq<char>, JsonV)>::empty());
    let component = match raw.get("component") {
        Some(c) => c,
        None => {
            return out;
        },
    };
    let instances = match component.get("instances") {
        Some(i) => i,
        None => {
            return out;
        },
    };
    proof {
        lemma_meaning(*instances);
    }
    match instances {
        Json::Array(entries) => {
            let ghost all = values(entries@);
            let mut i: usize = 0;
            while i < entries.len()
                invariant
                    i <= entries@.len(),
                    all == values(entries@),
                    running(out@) == candidates_among(all, i as nat),
                decreases entries@.len() - i,
            {
                assert(all[i as int] == entries@[i as int]@);
                match id_of(&entries[i]) {
                    Some(id) => {
                        if !knows(&out, &id) {
                            let ghost had = out@;
                            let one = RunningInstance { id, raw: entries[i].copy() };
                            out.push(one);
                            assert(running(out@) =~= running(had).push((one.id@, one.raw@)));
                        }
                    },
                    None => {},
                }
                i = i + 1;
            }
            out
        },
        _ => out,
    }
}

/// No id is declared twice.
pub proof fn candidate_ids_are_distinct(entries: Seq<JsonV>, n: nat)
    requires
        n <= entries.len(),
    ensures
        forall|i: int, j: int|
            0 <= i < j < candidates_among(entries, n).len() ==> (#[trigger] candidates_among(
                entries,
                n,
            )[i]).0 != (#[trigger] candidates_among(entries, n)[j]).0,
    decreases n,
{
    if n > 0 {
        candidate_ids_are_distinct(entries, (n - 1) as nat);
        let before = candidates_among(entries, (n - 1) as nat);
        let now = candidates_among(entries, n);
        assert forall|i: int, j: int| 0 <= i < j < now.len() implies (#[trigger] now[i]).0
            != (#[trigger] now[j]).0 by {
            if j < before.len() {
                assert(before[i].0 != before[j].0);
            } else {
                assert(now[i] == before[i]);
                assert(before[i].0 != now[j].0);
            }
        }
    }
}

/// Every candidate is a declared entry under its own id.
pub proof fn candidates_are_declared(entries: Seq<JsonV>, n: nat)
    requires
        n <= entries.len(),
    ensures
        forall|i: int|
            0 <= i < candidates_among(entries, n).len() ==> entries.contains(
                (#[trigger] candidates_among(entries, n)[i]).1,
            ) && declared_id(candidates_among(entries, n)[i].1) == Some(
                candidates_among(entries, n)[i].0,
            ),
    decreases n,
{
    if n > 0 {
        candidates_are_declared(entries, (n - 1) as nat);
        let before = candidates_among(entries, (n - 1) as nat);
        let now = candidates_among(entries, n);
        assert(entries.contains(entries[n - 1]));
        assert forall|i: int| 0 <= i < now.len() implies entries.contains((#[trigger] now[i]).1)
            && declared_id(now[i].1) == Some(now[i].0) by {
            if i < before.len() {
                assert(now[i] == before[i]);
            }
        }
    }
}

// ---- the instances this adapter can run ----

/// An instance this adapter can run, with the subtree it was parsed from.
#[derive(Debug)]
pub struct ParsedInstance<C> {
    pub id: String,
    pub cfg: C,
    pub raw: Json,
}

/// An instance that was skipped, and why.
#[derive(Debug)]
pub struct SkippedInstance {
    pub id: String,
    pub reason: String,
}

/// The instances of a list, by meaning.
pub open spec fn parsed<C>(s: Seq<ParsedInstance<C>>) -> Seq<(Seq<char>, C, JsonV)> {
    Seq::new(s.len(), |i: int| (s[i].id@, s[i].cfg, s[i].raw@))
}

/// The skipped instances of a list, by meaning.
pub open spec fn skips(s: Seq<SkippedInstance>) -> Seq<(Seq<char>, Seq<char>)> {
    Seq::new(s.len(), |i: int| (s[i].id@, s[i].reason@))
}

/// Those of the first `n` instances that parsed.
pub open spec fn valid_among<C>(
    all: Seq<(Seq<char>, JsonV)>,
    outcomes: Seq<Result<C, String>>,
    n: nat,
) -> Seq<(Seq<char>, C, JsonV)>
    decreases n,
{
    if n == 0 {
        Seq::empty()
    } else {
        let before = valid_among(all, outcomes, (n - 1) as nat);
        match outcomes[n - 1] {
            Ok(cfg) => before.push((all[n - 1].0, cfg, all[n - 1].1)),
            Err(_) => before,
        }
    }
}

/// Those of the first `n` instances that did not, and why.
pub open spec fn skipped_among<C>(
    all: Seq<(Seq<char>, JsonV)>,
    outcomes: Seq<Result<C, String>>,
    n: nat,
) -> Seq<(Seq<char>, Seq<char>)>
    decreases n,
{
    if n == 0 {
        Seq::empty()
    } else {
        let before = skipped_among(all, outcomes, (n - 1) as nat);
        match outcomes[n - 1] {
            Ok(_) => before,
            Err(e) => before.push((all[n - 1].0, e@)),
        }
    }
}

/// The instances of a document this adapter can run, in the order they are declared, and those it
/// cannot. `outcomes` holds what parsing each of the candidates came to.
pub fn parse_instances<C>(raw: &Json, outcomes: Vec<Result<C, String>>) -> (r: (
    Vec<ParsedInstance<C>>,
    Vec<SkippedInstance>,
))
    requires
        outcomes@.len() == candidates(raw@).len(),
    ensures
        parsed(r.0@) == valid_among(candidates(raw@), outcomes@, outcomes@.len()),
        skips(r.1@) == skipped_among(candidates(raw@), outcomes@, outcomes@.len()),
{
    let mut rest = candidate_instances(raw);
    let ghost all = running(rest@);
    let ghost whole = outcomes@;
    let mut left = outcomes;
    let mut valid: Vec<ParsedInstance<C>> = Vec::new();
    let mut skipped: Vec<SkippedInstance> = Vec::new();
    let ghost mut n: nat = 0;
    assert(parsed(valid@) =~= Seq::empty());
    assert(skips(skipped@) =~= Seq::empty());
    while left.len() > 0
        invariant
            all == candidates(raw@),
            whole.len() == all.len(),
            n <= whole.len(),
            left@ == whole.skip(n as int),
            running(rest@) == all.skip(n as int),
            parsed(valid@) == valid_among(all, whole, n),
            skips(skipped@) == skipped_among(all, whole, n),
        decreases left@.len(),
    {
        assert(running(rest@).len() == rest@.len());
        let ghost was = rest@;
        let one = rest.remove(0);
        assert(running(was)[0] == all[n as int]);
        assert(one.id@ == all[n as int].0 && one.raw@ == all[n as int].1);
        match left.remove(0) {
            Ok(cfg) => {
                let ghost had = valid@;
                let p = ParsedInstance { id: one.id, cfg, raw: one.raw };
                valid.push(p);
                assert(parsed(valid@) =~= parsed(had).push((p.id@, p.cfg, p.raw@)));
            },
            Err(reason) => {
                let ghost had = skipped@;
                let p = SkippedInstance { id: one.id, reason };
                skipped.push(p);
                assert(skips(skipped@) =~= skips(had).push((p.id@, p.reason@)));
            },
        }
        proof {
            assert(whole.skip(n as int).remove(0) =~= whole.skip(n as int + 1));
            assert(running(was.remove(0)) =~= running(was).remove(0));
            assert(all.skip(n as int).remove(0) =~= all.skip(n as int + 1));
            n = n + 1;
        }
    }
    (valid, skipped)
}

// ---- the diff ----

/// Why a candidate cannot be planned at all. The running generation keeps operating.
#[derive(Clone, Debug)]
pub enum ReloadPlanError {
    /// The component's own block is malformed.
    InvalidGlobal(String),
    /// Nothing in it can be run.
    NoValidInstances,
}

impl ReloadPlanError {
    pub open spec fn text(self) -> Seq<char> {
        match self {
            ReloadPlanError::InvalidGlobal(e) => e@,
            ReloadPlanError::NoValidInstances =>
                "no valid instance in component.instances[]; keeping the running configuration"@,
        }
    }

    /// The message.
    pub fn message(&self) -> (r: String)
        ensures
            r@ == self.text(),
    {
        match self {
            ReloadPlanError::InvalidGlobal(e) => e.clone(),
            ReloadPlanError::NoValidInstances => owned(
                "no valid instance in component.instances[]; keeping the running configuration",
            ),
        }
    }
}

/// What a change does to the running instances.
#[derive(Debug)]
pub struct ReloadPlan<C> {
    /// Something outside the instances changed, so every one restarts.
    pub restart_all: bool,
    pub global: GlobalConfig,
    /// Instances that are left alone.
    pub keep: Vec<String>,
    /// Instances to stop.
    pub stop: Vec<String>,
    /// Instances to launch.
    pub start: Vec<ParsedInstance<C>>,
    /// Those of the instances to stop that nothing succeeds.
    pub removed: Vec<String>,
    /// Instances that could not be parsed.
    pub skipped: Vec<SkippedInstance>,
}

/// What a change does to the running instances.
#[verifier::ext_equal]
#[verifier::reject_recursive_types(C)]
pub struct PlanV<C> {
    pub restart_all: bool,
    pub global: GlobalConfig,
    pub keep: Seq<Seq<char>>,
    pub stop: Seq<Seq<char>>,
    pub start: Seq<(Seq<char>, C, JsonV)>,
    pub removed: Seq<Seq<char>>,
    pub skipped: Seq<(Seq<char>, Seq<char>)>,
}

impl<C> View for ReloadPlan<C> {
    type V = PlanV<C>;

    open spec fn view(&self) -> PlanV<C> {
        PlanV {
            restart_all: self.restart_all,
            global: self.global,
            keep: texts(self.keep@),
            stop: texts(self.stop@),
            start: parsed(self.start@),
            removed: texts(self.removed@),
            skipped: skips(self.skipped@),
        }
    }
}

/// The subtree the first of the first `n` running instances of an id was launched from.
pub open spec fn launched_from(
    live: Seq<(Seq<char>, JsonV)>,
    n: nat,
    id: Seq<char>,
) -> Option<JsonV>
    decreases n,
{
    if n == 0 {
        None
    } else {
        match launched_from(live, (n - 1) as nat, id) {
            Some(v) => Some(v),
            None => if live[n - 1].0 == id {
                Some(live[n - 1].1)
            } else {
                None
            },
        }
    }
}

/// The subtree a running instance was launched from.
pub open spec fn runs_from(live: Seq<(Seq<char>, JsonV)>, id: Seq<char>) -> Option<JsonV> {
    launched_from(live, live.len(), id)
}

/// An instance is left alone when it runs from the very subtree the candidate holds, and nothing else
/// changed.
pub open spec fn untouched<C>(
    live: Seq<(Seq<char>, JsonV)>,
    restart_all: bool,
    c: (Seq<char>, C, JsonV),
) -> bool {
    !restart_all && runs_from(live, c.0) == Some(c.2)
}

/// Those of the first `n` instances that are left alone.
pub open spec fn kept_among<C>(
    live: Seq<(Seq<char>, JsonV)>,
    restart_all: bool,
    valid: Seq<(Seq<char>, C, JsonV)>,
    n: nat,
) -> Seq<Seq<char>>
    decreases n,
{
    if n == 0 {
        Seq::empty()
    } else {
        let before = kept_among(live, restart_all, valid, (n - 1) as nat);
        if untouched(live, restart_all, valid[n - 1]) {
            before.push(valid[n - 1].0)
        } else {
            before
        }
    }
}

/// Those of the first `n` instances that run but are not left alone.
pub open spec fn changed_among<C>(
    live: Seq<(Seq<char>, JsonV)>,
    restart_all: bool,
    valid: Seq<(Seq<char>, C, JsonV)>,
    n: nat,
) -> Seq<Seq<char>>
    decreases n,
{
    if n == 0 {
        Seq::empty()
    } else {
        let before = changed_among(live, restart_all, valid, (n - 1) as nat);
        if !untouched(live, restart_all, valid[n - 1]) && runs_from(live, valid[n - 1].0) is Some {
            before.push(valid[n - 1].0)
        } else {
            before
        }
    }
}

/// Those of the first `n` instances that are launched: all that are not left alone.
pub open spec fn started_among<C>(
    live: Seq<(Seq<char>, JsonV)>,
    restart_all: bool,
    valid: Seq<(Seq<char>, C, JsonV)>,
    n: nat,
) -> Seq<(Seq<char>, C, JsonV)>
    decreases n,
{
    if n == 0 {
        Seq::empty()
    } else {
        let before = started_among(live, restart_all, valid, (n - 1) as nat);
        if untouched(live, restart_all, valid[n - 1]) {
            before
        } else {
            before.push(valid[n - 1])
        }
    }
}

/// Whether an id is among the instances that can be run.
pub open spec fn succeeds<C>(valid: Seq<(Seq<char>, C, JsonV)>, id: Seq<char>) -> bool {
    exists|i: int| 0 <= i < valid.len() && (#[trigger] valid[i]).0 == id
}

/// Those of the first `n` running instances that nothing succeeds.
pub open spec fn removed_among<C>(
    live: Seq<(Seq<char>, JsonV)>,
    valid: Seq<(Seq<char>, C, JsonV)>,
    n: nat,
) -> Seq<Seq<char>>
    decreases n,
{
    if n == 0 {
        Seq::empty()
    } else {
        let before = removed_among(live, valid, (n - 1) as nat);
        if succeeds(valid, live[n - 1].0) {
            before
        } else {
            before.push(live[n - 1].0)
        }
    }
}

/// What a change comes to, given what runs, what it was launched with, and what the candidate parses to.
pub open spec fn planned<C>(
    live: Seq<(Seq<char>, JsonV)>,
    bound: JsonV,
    raw: JsonV,
    global: Result<GlobalConfig, String>,
    outcomes: Seq<Result<C, String>>,
) -> Result<PlanV<C>, Option<Seq<char>>> {
    match global {
        Err(e) => Err(Some(e@)),
        Ok(g) => {
            let all = candidates(raw);
            let valid = valid_among(all, outcomes, outcomes.len());
            let restart_all = without_instances(raw) != bound;
            let removed = removed_among(live, valid, live.len());
            if valid.len() == 0 {
                Err(None)
            } else {
                Ok(
                    PlanV {
                        restart_all,
                        global: g,
                        keep: kept_among(live, restart_all, valid, valid.len()),
                        stop: changed_among(live, restart_all, valid, valid.len()) + removed,
                        start: started_among(live, restart_all, valid, valid.len()),
                        removed,
                        skipped: skipped_among(all, outcomes, outcomes.len()),
                    },
                )
            }
        },
    }
}

/// The outcome of planning, by meaning.
pub open spec fn plan_outcome<C>(r: Result<ReloadPlan<C>, ReloadPlanError>) -> Result<
    PlanV<C>,
    Option<Seq<char>>,
> {
    match r {
        Ok(p) => Ok(p@),
        Err(ReloadPlanError::InvalidGlobal(e)) => Err(Some(e@)),
        Err(ReloadPlanError::NoValidInstances) => Err(None),
    }
}

fn find_running(live: &Vec<RunningInstance>, id: &String) -> (r: Option<usize>)
    ensures
        match r {
            Some(i) => i < live@.len() && runs_from(running(live@), id@) == Some(live@[i as int].raw@),
            None => runs_from(running(live@), id@) is None,
        },
{
    let mut i: usize = 0;
    let ghost all = running(live@);
    while i < live.len()
        invariant
            i <= live@.len(),
            all == running(live@),
            launched_from(all, i as nat, id@) is None,
        decreases live@.len() - i,
    {
        if live[i].id == *id {
            proof {
                assert(launched_from(all, (i + 1) as nat, id@) == Some(all[i as int].1));
                lemma_found_stays(all, id@, (i + 1) as nat, all.len());
            }
            return Some(i);
        }
        i = i + 1;
    }
    None
}

proof fn lemma_found_stays(live: Seq<(Seq<char>, JsonV)>, id: Seq<char>, n: nat, m: nat)
    requires
        n <= m <= live.len(),
        launched_from(live, n, id) is Some,
    ensures
        launched_from(live, m, id) == launched_from(live, n, id),
    decreases m - n,
{
    if n < m {
        lemma_found_stays(live, id, n, (m - 1) as nat);
    }
}

fn has_successor(ids: &Vec<String>, id: &String) -> (r: bool)
    ensures
        r == texts(ids@).contains(id@),
{
    let mut i: usize = 0;
    while i < ids.len()
        invariant
            i <= ids@.len(),
            forall|j: int| 0 <= j < i ==> (#[trigger] texts(ids@)[j]) != id@,
        decreases ids@.len() - i,
    {
        if ids[i] == *id {
            assert(texts(ids@)[i as int] == id@);
            return true;
        }
        i = i + 1;
    }
    false
}

proof fn lemma_kept_or_started<C>(
    live: Seq<(Seq<char>, JsonV)>,
    restart_all: bool,
    valid: Seq<(Seq<char>, C, JsonV)>,
    n: nat,
)
    requires
        n <= valid.len(),
    ensures
        kept_among(live, restart_all, valid, n).len() + started_among(
            live,
            restart_all,
            valid,
            n,
        ).len() == n,
    decreases n,
{
    if n > 0 {
        lemma_kept_or_started(live, restart_all, valid, (n - 1) as nat);
    }
}

/// The reload decision. `live` is what actually runs, `bound` what it was launched with besides its
/// instances; `global` and `outcomes` are what the candidate's own block and each of its instances parse
/// to.
pub fn plan<C>(
    live: &Vec<RunningInstance>,
    bound: &Json,
    raw: &Json,
    global: Result<GlobalConfig, String>,
    outcomes: Vec<Result<C, String>>,
) -> (r: Result<ReloadPlan<C>, ReloadPlanError>)
    requires
        outcomes@.len() == candidates(raw@).len(),
    ensures
        plan_outcome(r) == planned(running(live@), bound@, raw@, global, outcomes@),
{
    let g = match global {
        Ok(g) => g,
        Err(e) => {
            return Err(ReloadPlanError::InvalidGlobal(e));
        },
    };
    let restart_all = !non_instance_view(raw).same(bound);
    let (candidate, skipped) = parse_instances(raw, outcomes);
    let ghost lives = running(live@);
    let ghost valid = parsed(candidate@);
    let ghost whole = candidate@;
    let mut keep: Vec<String> = Vec::new();
    let mut stop: Vec<String> = Vec::new();
    let mut start: Vec<ParsedInstance<C>> = Vec::new();
    let mut ids: Vec<String> = Vec::new();
    let mut rest = candidate;
    let ghost mut n: nat = 0;
    assert(texts(keep@) =~= Seq::empty());
    assert(texts(stop@) =~= Seq::empty());
    assert(texts(ids@) =~= Seq::empty());
    assert(parsed(start@) =~= Seq::empty());
    while rest.len() > 0
        invariant
            lives == running(live@),
            valid == parsed(whole),
            n <= whole.len(),
            rest@ == whole.skip(n as int),
            texts(keep@) == kept_among(lives, restart_all, valid, n),
            texts(stop@) == changed_among(lives, restart_all, valid, n),
            parsed(start@) == started_among(lives, restart_all, valid, n),
            ids@.len() == n,
            forall|i: int| 0 <= i < n ==> (#[trigger] ids@[i])@ == valid[i].0,
        decreases rest@.len(),
    {
        let one = rest.remove(0);
        assert(one == whole[n as int]);
        assert(valid[n as int] == (one.id@, one.cfg, one.raw@));
        ids.push(one.id.clone());
        let found = find_running(live, &one.id);
        let unchanged = match found {
            Some(i) => !restart_all && live[i].raw.same(&one.raw),
            None => false,
        };
        assert(unchanged == untouched(lives, restart_all, valid[n as int]));
        if unchanged {
            let ghost had = keep@;
            keep.push(one.id);
            assert(texts(keep@) =~= texts(had).push(one.id@));
        } else {
            if found.is_some() {
                let ghost had = stop@;
                stop.push(one.id.clone());
                assert(texts(stop@) =~= texts(had).push(one.id@));
            }
            let ghost had = start@;
            start.push(one);
            assert(parsed(start@) =~= parsed(had).push((one.id@, one.cfg, one.raw@)));
        }
        proof {
            assert(whole.skip(n as int).remove(0) =~= whole.skip(n as int + 1));
            n = n + 1;
        }
    }
    proof {
        lemma_kept_or_started(lives, restart_all, valid, valid.len());
        assert(texts(keep@).len() == keep@.len());
        assert(parsed(start@).len() == start@.len());
    }
    if keep.len() == 0 && start.len() == 0 {
        return Err(ReloadPlanError::NoValidInstances);
    }
    let ghost changed = texts(stop@);
    let mut removed: Vec<String> = Vec::new();
    assert(texts(removed@) =~= Seq::empty());
    assert(texts(stop@) =~= changed + Seq::<Seq<char>>::empty());
    let mut i: usize = 0;
    while i < live.len()
        invariant
            i <= live@.len(),
            lives == running(live@),
            ids@.len() == valid.len(),
            forall|k: int| 0 <= k < valid.len() ==> (#[trigger] ids@[k])@ == valid[k].0,
            texts(removed@) == removed_among(lives, valid, i as nat),
            texts(stop@) == changed + removed_among(lives, valid, i as nat),
        decreases live@.len() - i,
    {
        let id = &live[i].id;
        let followed = has_successor(&ids, id);
        proof {
            if followed {
                let k = choose|k: int| 0 <= k < texts(ids@).len() && texts(ids@)[k] == id@;
                assert(ids@[k]@ == valid[k].0);
            }
            if succeeds(valid, id@) {
                let k = choose|k: int| 0 <= k < valid.len() && (#[trigger] valid[k]).0 == id@;
                assert(ids@[k]@ == valid[k].0);
                assert(texts(ids@)[k] == id@);
            }
        }
        if !followed {
            let ghost had = removed@;
            let ghost stopped = stop@;
            stop.push(id.clone());
            removed.push(id.clone());
            assert(texts(removed@) =~= texts(had).push(id@));
            assert(texts(stop@) =~= texts(stopped).push(id@));
            assert(texts(stop@) =~= changed + removed_among(lives, valid, (i + 1) as nat));
        }
        i = i + 1;
    }
    Ok(ReloadPlan { restart_all, global: g, keep, stop, start, removed, skipped })
}

// ---- what the diff keeps ----

proof fn lemma_contains_push<A>(s: Seq<A>, a: A, x: A)
    ensures
        s.push(a).contains(x) <==> s.contains(x) || x == a,
{
    if s.contains(x) {
        let i = choose|i: int| 0 <= i < s.len() && s[i] == x;
        assert(s.push(a)[i] == x);
    }
    assert(s.push(a)[s.len() as int] == a);
    if s.push(a).contains(x) && x != a {
        let i = choose|i: int| 0 <= i < s.push(a).len() && s.push(a)[i] == x;
        assert(s[i] == x);
    }
}

proof fn lemma_contains_add<A>(s: Seq<A>, t: Seq<A>, x: A)
    ensures
        (s + t).contains(x) <==> s.contains(x) || t.contains(x),
{
    if s.contains(x) {
        let i = choose|i: int| 0 <= i < s.len() && s[i] == x;
        assert((s + t)[i] == x);
    }
    if t.contains(x) {
        let i = choose|i: int| 0 <= i < t.len() && t[i] == x;
        assert((s + t)[s.len() + i] == x);
    }
    if (s + t).contains(x) {
        let i = choose|i: int| 0 <= i < (s + t).len() && (s + t)[i] == x;
        if i < s.len() {
            assert(s[i] == x);
        } else {
            assert(t[i - s.len()] == x);
        }
    }
}

proof fn lemma_membership<C>(
    live: Seq<(Seq<char>, JsonV)>,
    restart_all: bool,
    valid: Seq<(Seq<char>, C, JsonV)>,
    n: nat,
    id: Seq<char>,
)
    requires
        n <= valid.len(),
    ensures
        kept_among(live, restart_all, valid, n).contains(id) <==> exists|i: int|
            0 <= i < n && (#[trigger] valid[i]).0 == id && untouched(live, restart_all, valid[i]),
        changed_among(live, restart_all, valid, n).contains(id) <==> exists|i: int|
            0 <= i < n && (#[trigger] valid[i]).0 == id && !untouched(live, restart_all, valid[i])
                && runs_from(live, id) is Some,
    decreases n,
{
    if n > 0 {
        let m = (n - 1) as nat;
        lemma_membership(live, restart_all, valid, m, id);
        lemma_contains_push(kept_among(live, restart_all, valid, m), valid[n - 1].0, id);
        lemma_contains_push(changed_among(live, restart_all, valid, m), valid[n - 1].0, id);
        assert(valid[n - 1] == valid[m as int]);
    }
}

proof fn lemma_start_membership<C>(
    live: Seq<(Seq<char>, JsonV)>,
    restart_all: bool,
    valid: Seq<(Seq<char>, C, JsonV)>,
    n: nat,
    c: (Seq<char>, C, JsonV),
)
    requires
        n <= valid.len(),
    ensures
        started_among(live, restart_all, valid, n).contains(c) <==> exists|i: int|
            0 <= i < n && #[trigger] valid[i] == c && !untouched(live, restart_all, c),
    decreases n,
{
    if n > 0 {
        let m = (n - 1) as nat;
        lemma_start_membership(live, restart_all, valid, m, c);
        lemma_contains_push(started_among(live, restart_all, valid, m), valid[n - 1], c);
        assert(valid[n - 1] == valid[m as int]);
    }
}

proof fn lemma_removed_membership<C>(
    live: Seq<(Seq<char>, JsonV)>,
    valid: Seq<(Seq<char>, C, JsonV)>,
    n: nat,
    id: Seq<char>,
)
    requires
        n <= live.len(),
    ensures
        removed_among(live, valid, n).contains(id) <==> !succeeds(valid, id) && exists|i: int|
            0 <= i < n && (#[trigger] live[i]).0 == id,
    decreases n,
{
    if n > 0 {
        let m = (n - 1) as nat;
        lemma_removed_membership(live, valid, m, id);
        lemma_contains_push(removed_among(live, valid, m), live[n - 1].0, id);
        assert(live[n - 1] == live[m as int]);
    }
}

proof fn lemma_runs(live: Seq<(Seq<char>, JsonV)>, n: nat, id: Seq<char>)
    requires
        n <= live.len(),
    ensures
        launched_from(live, n, id) is Some <==> exists|i: int|
            0 <= i < n && (#[trigger] live[i]).0 == id,
    decreases n,
{
    if n > 0 {
        lemma_runs(live, (n - 1) as nat, id);
        if live[n - 1].0 == id {
            assert(live[n as int - 1].0 == id);
        }
    }
}

proof fn lemma_valid_ids<C>(
    all: Seq<(Seq<char>, JsonV)>,
    outcomes: Seq<Result<C, String>>,
    n: nat,
)
    requires
        n <= all.len(),
        n <= outcomes.len(),
        forall|i: int, j: int|
            0 <= i < j < all.len() ==> (#[trigger] all[i]).0 != (#[trigger] all[j]).0,
    ensures
        forall|k: int|
            0 <= k < valid_among(all, outcomes, n).len() ==> has_id(
                all.take(n as int),
                (#[trigger] valid_among(all, outcomes, n)[k]).0,
            ),
        forall|i: int, j: int|
            0 <= i < j < valid_among(all, outcomes, n).len() ==> (#[trigger] valid_among(
                all,
                outcomes,
                n,
            )[i]).0 != (#[trigger] valid_among(all, outcomes, n)[j]).0,
    decreases n,
{
    if n > 0 {
        let m = (n - 1) as nat;
        lemma_valid_ids(all, outcomes, m);
        let before = valid_among(all, outcomes, m);
        let now = valid_among(all, outcomes, n);
        let some = all.take(n as int);
        let fewer = all.take(m as int);
        assert forall|k: int| 0 <= k < now.len() implies has_id(some, (#[trigger] now[k]).0) by {
            if k < before.len() {
                assert(now[k] == before[k]);
                let i = choose|i: int| 0 <= i < fewer.len() && (#[trigger] fewer[i]).0 == before[k].0;
                assert(some[i].0 == now[k].0);
            } else {
                assert(some[m as int].0 == now[k].0);
            }
        }
        assert forall|i: int, j: int| 0 <= i < j < now.len() implies (#[trigger] now[i]).0
            != (#[trigger] now[j]).0 by {
            if j < before.len() {
                assert(before[i].0 != before[j].0);
            } else {
                assert(now[i] == before[i]);
                assert(has_id(fewer, before[i].0));
                let a = choose|a: int| 0 <= a < fewer.len() && (#[trigger] fewer[a]).0 == before[i].0;
                assert(all[a].0 != all[m as int].0);
            }
        }
    }
}

/// Every running instance is either left alone or stopped, and never both.
pub proof fn a_running_instance_is_kept_or_stopped<C>(
    live: Seq<(Seq<char>, JsonV)>,
    bound: JsonV,
    raw: JsonV,
    global: Result<GlobalConfig, String>,
    outcomes: Seq<Result<C, String>>,
    id: Seq<char>,
)
    requires
        outcomes.len() == candidates(raw).len(),
        planned(live, bound, raw, global, outcomes) is Ok,
        has_id(live, id),
    ensures
        ({
            let p = planned(live, bound, raw, global, outcomes)->Ok_0;
            p.keep.contains(id) != p.stop.contains(id)
        }),
{
    let all = candidates(raw);
    let valid = valid_among(all, outcomes, outcomes.len());
    let restart_all = without_instances(raw) != bound;
    candidate_ids_are_distinct(declared(raw), declared(raw).len());
    lemma_valid_ids(all, outcomes, outcomes.len());
    lemma_membership(live, restart_all, valid, valid.len(), id);
    lemma_removed_membership(live, valid, live.len(), id);
    lemma_runs(live, live.len(), id);
    lemma_contains_add(
        changed_among(live, restart_all, valid, valid.len()),
        removed_among(live, valid, live.len()),
        id,
    );
}

/// Every instance that can be run is either left alone or launched, and never both; one that is left
/// alone runs from the very subtree the candidate holds.
pub proof fn a_valid_instance_is_kept_or_started<C>(
    live: Seq<(Seq<char>, JsonV)>,
    bound: JsonV,
    raw: JsonV,
    global: Result<GlobalConfig, String>,
    outcomes: Seq<Result<C, String>>,
    i: int,
)
    requires
        outcomes.len() == candidates(raw).len(),
        planned(live, bound, raw, global, outcomes) is Ok,
        0 <= i < valid_among(candidates(raw), outcomes, outcomes.len()).len(),
    ensures
        ({
            let p = planned(live, bound, raw, global, outcomes)->Ok_0;
            let c = valid_among(candidates(raw), outcomes, outcomes.len())[i];
            &&& p.keep.contains(c.0) != p.start.contains(c)
            &&& p.keep.contains(c.0) ==> runs_from(live, c.0) == Some(c.2)
        }),
{
    let all = candidates(raw);
    let valid = valid_among(all, outcomes, outcomes.len());
    let restart_all = without_instances(raw) != bound;
    candidate_ids_are_distinct(declared(raw), declared(raw).len());
    lemma_valid_ids(all, outcomes, outcomes.len());
    lemma_membership(live, restart_all, valid, valid.len(), valid[i].0);
    lemma_start_membership(live, restart_all, valid, valid.len(), valid[i]);
}

/// What nothing succeeds is stopped.
pub proof fn a_removed_instance_is_stopped<C>(
    live: Seq<(Seq<char>, JsonV)>,
    bound: JsonV,
    raw: JsonV,
    global: Result<GlobalConfig, String>,
    outcomes: Seq<Result<C, String>>,
    id: Seq<char>,
)
    requires
        planned(live, bound, raw, global, outcomes) is Ok,
        planned(live, bound, raw, global, outcomes)->Ok_0.removed.contains(id),
    ensures
        planned(live, bound, raw, global, outcomes)->Ok_0.stop.contains(id),
{
    let valid = valid_among(candidates(raw), outcomes, outcomes.len());
    let restart_all = without_instances(raw) != bound;
    lemma_contains_add(
        changed_among(live, restart_all, valid, valid.len()),
        removed_among(live, valid, live.len()),
        id,
    );
}

proof fn lemma_nothing_kept<C>(
    live: Seq<(Seq<char>, JsonV)>,
    valid: Seq<(Seq<char>, C, JsonV)>,
    n: nat,
)
    requires
        n <= valid.len(),
    ensures
        kept_among(live, true, valid, n).len() == 0,
        started_among(live, true, valid, n) == valid.take(n as int),
    decreases n,
{
    if n > 0 {
        lemma_nothing_kept(live, valid, (n - 1) as nat);
        assert(valid.take(n as int) =~= valid.take(n - 1).push(valid[n - 1]));
    } else {
        assert(valid.take(0) =~= Seq::empty());
    }
}

/// A change outside the instances leaves none of them alone, and launches every one that can be run.
pub proof fn a_change_outside_the_instances_restarts_all<C>(
    live: Seq<(Seq<char>, JsonV)>,
    bound: JsonV,
    raw: JsonV,
    global: Result<GlobalConfig, String>,
    outcomes: Seq<Result<C, String>>,
)
    requires
        planned(live, bound, raw, global, outcomes) is Ok,
        without_instances(raw) != bound,
    ensures
        planned(live, bound, raw, global, outcomes)->Ok_0.keep.len() == 0,
        planned(live, bound, raw, global, outcomes)->Ok_0.start == valid_among(
            candidates(raw),
            outcomes,
            outcomes.len(),
        ),
{
    let valid = valid_among(candidates(raw), outcomes, outcomes.len());
    lemma_nothing_kept(live, valid, valid.len());
    assert(valid.take(valid.len() as int) =~= valid);
}

proof fn lemma_all_valid<C>(
    all: Seq<(Seq<char>, JsonV)>,
    outcomes: Seq<Result<C, String>>,
    n: nat,
)
    requires
        n <= all.len(),
        n <= outcomes.len(),
        forall|i: int| 0 <= i < n ==> (#[trigger] outcomes[i]) is Ok,
    ensures
        valid_among(all, outcomes, n).len() == n,
        forall|i: int|
            0 <= i < n ==> (#[trigger] valid_among(all, outcomes, n)[i]).0 == all[i].0 && valid_among(
                all,
                outcomes,
                n,
            )[i].2 == all[i].1,
        skipped_among(all, outcomes, n).len() == 0,
    decreases n,
{
    if n > 0 {
        lemma_all_valid(all, outcomes, (n - 1) as nat);
        let before = valid_among(all, outcomes, (n - 1) as nat);
        let now = valid_among(all, outcomes, n);
        assert(outcomes[n - 1] is Ok);
        assert forall|i: int| 0 <= i < n implies (#[trigger] now[i]).0 == all[i].0 && now[i].2
            == all[i].1 by {
            if i < n - 1 {
                assert(now[i] == before[i]);
            }
        }
    }
}

proof fn lemma_first_is_only(live: Seq<(Seq<char>, JsonV)>, n: nat, i: int)
    requires
        n <= live.len(),
        0 <= i < n,
        forall|a: int, b: int|
            0 <= a < b < live.len() ==> (#[trigger] live[a]).0 != (#[trigger] live[b]).0,
    ensures
        launched_from(live, n, live[i].0) == Some(live[i].1),
    decreases n,
{
    if i < n - 1 {
        lemma_first_is_only(live, (n - 1) as nat, i);
    } else {
        lemma_runs(live, (n - 1) as nat, live[i].0);
        if launched_from(live, (n - 1) as nat, live[i].0) is Some {
            let a = choose|a: int| 0 <= a < n - 1 && (#[trigger] live[a]).0 == live[i].0;
            assert(live[a].0 != live[i].0);
        }
    }
}

proof fn lemma_all_kept<C>(
    live: Seq<(Seq<char>, JsonV)>,
    valid: Seq<(Seq<char>, C, JsonV)>,
    n: nat,
)
    requires
        n <= valid.len(),
        forall|i: int| 0 <= i < valid.len() ==> untouched(live, false, #[trigger] valid[i]),
    ensures
        kept_among(live, false, valid, n) == Seq::new(n, |i: int| valid[i].0),
        started_among(live, false, valid, n).len() == 0,
        changed_among(live, false, valid, n).len() == 0,
    decreases n,
{
    if n > 0 {
        lemma_all_kept(live, valid, (n - 1) as nat);
        assert(untouched(live, false, valid[n - 1]));
    }
    assert(kept_among(live, false, valid, n) =~= Seq::new(n, |i: int| valid[i].0));
}

proof fn lemma_none_removed<C>(
    live: Seq<(Seq<char>, JsonV)>,
    valid: Seq<(Seq<char>, C, JsonV)>,
    n: nat,
)
    requires
        n <= live.len(),
        forall|i: int| 0 <= i < live.len() ==> succeeds(valid, (#[trigger] live[i]).0),
    ensures
        removed_among(live, valid, n).len() == 0,
    decreases n,
{
    if n > 0 {
        lemma_none_removed(live, valid, (n - 1) as nat);
        assert(succeeds(valid, live[n - 1].0));
    }
}

/// Applying the document that runs moves nothing: every instance is left alone, none is stopped and none
/// is launched.
pub proof fn applying_what_runs_moves_nothing<C>(
    raw: JsonV,
    global: Result<GlobalConfig, String>,
    outcomes: Seq<Result<C, String>>,
)
    requires
        outcomes.len() == candidates(raw).len(),
        candidates(raw).len() > 0,
        global is Ok,
        forall|i: int| 0 <= i < outcomes.len() ==> (#[trigger] outcomes[i]) is Ok,
    ensures
        planned(candidates(raw), without_instances(raw), raw, global, outcomes) is Ok,
        ({
            let p = planned(candidates(raw), without_instances(raw), raw, global, outcomes)->Ok_0;
            &&& !p.restart_all
            &&& p.keep == Seq::new(candidates(raw).len(), |i: int| candidates(raw)[i].0)
            &&& p.stop.len() == 0
            &&& p.start.len() == 0
            &&& p.removed.len() == 0
            &&& p.skipped.len() == 0
        }),
{
    let all = candidates(raw);
    let valid = valid_among(all, outcomes, outcomes.len());
    candidate_ids_are_distinct(declared(raw), declared(raw).len());
    lemma_all_valid(all, outcomes, outcomes.len());
    assert forall|i: int| 0 <= i < valid.len() implies untouched(all, false, #[trigger] valid[i]) by {
        lemma_first_is_only(all, all.len(), i);
    }
    lemma_all_kept(all, valid, valid.len());
    assert forall|i: int| 0 <= i < all.len() implies succeeds(valid, (#[trigger] all[i]).0) by {
        assert(valid[i].0 == all[i].0);
    }
    lemma_none_removed(all, valid, all.len());
    assert(kept_among(all, false, valid, valid.len()) =~= Seq::new(all.len(), |i: int| all[i].0));
}

/// What is left alone runs.
pub proof fn a_kept_instance_runs<C>(
    live: Seq<(Seq<char>, JsonV)>,
    bound: JsonV,
    raw: JsonV,
    global: Result<GlobalConfig, String>,
    outcomes: Seq<Result<C, String>>,
    id: Seq<char>,
)
    requires
        planned(live, bound, raw, global, outcomes) is Ok,
        planned(live, bound, raw, global, outcomes)->Ok_0.keep.contains(id),
    ensures
        has_id(live, id),
{
    let valid = valid_among(candidates(raw), outcomes, outcomes.len());
    let restart_all = without_instances(raw) != bound;
    lemma_membership(live, restart_all, valid, valid.len(), id);
    lemma_runs(live, live.len(), id);
}

/// What is launched is not left alone.
pub proof fn a_started_instance_is_not_kept<C>(
    live: Seq<(Seq<char>, JsonV)>,
    bound: JsonV,
    raw: JsonV,
    global: Result<GlobalConfig, String>,
    outcomes: Seq<Result<C, String>>,
    c: (Seq<char>, C, JsonV),
)
    requires
        outcomes.len() == candidates(raw).len(),
        planned(live, bound, raw, global, outcomes) is Ok,
        planned(live, bound, raw, global, outcomes)->Ok_0.start.contains(c),
    ensures
        !planned(live, bound, raw, global, outcomes)->Ok_0.keep.contains(c.0),
{
    let all = candidates(raw);
    let valid = valid_among(all, outcomes, outcomes.len());
    let restart_all = without_instances(raw) != bound;
    candidate_ids_are_distinct(declared(raw), declared(raw).len());
    lemma_valid_ids(all, outcomes, outcomes.len());
    lemma_membership(live, restart_all, valid, valid.len(), c.0);
    lemma_start_membership(live, restart_all, valid, valid.len(), c);
}

/// What is launched is one of the instances the candidate can run, with its own subtree.
pub proof fn a_started_instance_is_valid<C>(
    live: Seq<(Seq<char>, JsonV)>,
    bound: JsonV,
    raw: JsonV,
    global: Result<GlobalConfig, String>,
    outcomes: Seq<Result<C, String>>,
    c: (Seq<char>, C, JsonV),
)
    requires
        planned(live, bound, raw, global, outcomes) is Ok,
        planned(live, bound, raw, global, outcomes)->Ok_0.start.contains(c),
    ensures
        valid_among(candidates(raw), outcomes, outcomes.len()).contains(c),
{
    let valid = valid_among(candidates(raw), outcomes, outcomes.len());
    let restart_all = without_instances(raw) != bound;
    lemma_start_membership(live, restart_all, valid, valid.len(), c);
}

/// No two of the instances a candidate can run have the same id.
pub proof fn valid_ids_are_distinct<C>(raw: JsonV, outcomes: Seq<Result<C, String>>, i: int, j: int)
    requires
        outcomes.len() == candidates(raw).len(),
        0 <= i < valid_among(candidates(raw), outcomes, outcomes.len()).len(),
        0 <= j < valid_among(candidates(raw), outcomes, outcomes.len()).len(),
        valid_among(candidates(raw), outcomes, outcomes.len())[i].0 == valid_among(
            candidates(raw),
            outcomes,
            outcomes.len(),
        )[j].0,
    ensures
        i == j,
{
    let valid = valid_among(candidates(raw), outcomes, outcomes.len());
    candidate_ids_are_distinct(declared(raw), declared(raw).len());
    lemma_valid_ids(candidates(raw), outcomes, outcomes.len());
    if i < j {
        assert(valid[i].0 != valid[j].0);
    } else if j < i {
        assert(valid[j].0 != valid[i].0);
    }
}

/// The ids of instances to launch.
pub open spec fn started_ids<C>(start: Seq<(Seq<char>, C, JsonV)>) -> Seq<Seq<char>> {
    Seq::new(start.len(), |i: int| start[i].0)
}

proof fn lemma_push_keeps_distinct<A>(s: Seq<A>, a: A)
    requires
        s.no_duplicates(),
        !s.contains(a),
    ensures
        s.push(a).no_duplicates(),
{
    assert forall|i: int, j: int|
        0 <= i < s.push(a).len() && 0 <= j < s.push(a).len() && i != j implies s.push(a)[i] != s.push(
        a,
    )[j] by {
        if i == s.len() {
            assert(s.contains(s[j]));
        } else if j == s.len() {
            assert(s.contains(s[i]));
        }
    }
}

proof fn lemma_add_keeps_distinct<A>(s: Seq<A>, t: Seq<A>)
    requires
        s.no_duplicates(),
        t.no_duplicates(),
        forall|a: A| s.contains(a) ==> !t.contains(a),
    ensures
        (s + t).no_duplicates(),
{
    let u = s + t;
    assert forall|i: int, j: int| 0 <= i < u.len() && 0 <= j < u.len() && i != j implies u[i]
        != u[j] by {
        if i < s.len() && j >= s.len() {
            assert(s.contains(u[i]) && t.contains(t[j - s.len()]));
        } else if j < s.len() && i >= s.len() {
            assert(s.contains(u[j]) && t.contains(t[i - s.len()]));
        }
    }
}

proof fn lemma_parts_distinct<C>(
    live: Seq<(Seq<char>, JsonV)>,
    restart_all: bool,
    valid: Seq<(Seq<char>, C, JsonV)>,
    n: nat,
)
    requires
        n <= valid.len(),
        forall|i: int, j: int|
            0 <= i < j < valid.len() ==> (#[trigger] valid[i]).0 != (#[trigger] valid[j]).0,
    ensures
        kept_among(live, restart_all, valid, n).no_duplicates(),
        changed_among(live, restart_all, valid, n).no_duplicates(),
        started_ids(started_among(live, restart_all, valid, n)).no_duplicates(),
        forall|id: Seq<char>|
            started_ids(started_among(live, restart_all, valid, n)).contains(id) <==> exists|i: int|
                0 <= i < n && (#[trigger] valid[i]).0 == id && !untouched(
                    live,
                    restart_all,
                    valid[i],
                ),
    decreases n,
{
    let started = started_among(live, restart_all, valid, n);
    if n > 0 {
        let m = (n - 1) as nat;
        let id = valid[n - 1].0;
        let before = started_among(live, restart_all, valid, m);
        lemma_parts_distinct(live, restart_all, valid, m);
        lemma_membership(live, restart_all, valid, m, id);
        assert forall|i: int| 0 <= i < m implies (#[trigger] valid[i]).0 != id by {
            assert(valid[i].0 != valid[n - 1].0);
        }
        assert(!started_ids(before).contains(id));
        if untouched(live, restart_all, valid[n - 1]) {
            lemma_push_keeps_distinct(kept_among(live, restart_all, valid, m), id);
        } else {
            lemma_push_keeps_distinct(changed_among(live, restart_all, valid, m), id);
            lemma_push_keeps_distinct(started_ids(before), id);
            assert(started_ids(started) =~= started_ids(before).push(id));
        }
        assert forall|x: Seq<char>| started_ids(started).contains(x) <==> exists|i: int|
            0 <= i < n && (#[trigger] valid[i]).0 == x && !untouched(live, restart_all, valid[i]) by {
            lemma_contains_push(started_ids(before), id, x);
            assert(valid[n - 1] == valid[m as int]);
        }
    } else {
        assert(started_ids(started).len() == 0);
    }
}

proof fn lemma_removed_distinct<C>(
    live: Seq<(Seq<char>, JsonV)>,
    valid: Seq<(Seq<char>, C, JsonV)>,
    n: nat,
)
    requires
        n <= live.len(),
        forall|i: int, j: int|
            0 <= i < j < live.len() ==> (#[trigger] live[i]).0 != (#[trigger] live[j]).0,
    ensures
        removed_among(live, valid, n).no_duplicates(),
    decreases n,
{
    if n > 0 {
        let m = (n - 1) as nat;
        let id = live[n - 1].0;
        lemma_removed_distinct(live, valid, m);
        lemma_removed_membership(live, valid, m, id);
        assert forall|i: int| 0 <= i < m implies (#[trigger] live[i]).0 != id by {
            assert(live[i].0 != live[n - 1].0);
        }
        if !succeeds(valid, id) {
            lemma_push_keeps_distinct(removed_among(live, valid, m), id);
        }
    }
}

proof fn lemma_filter_all<A>(s: Seq<A>, pred: spec_fn(A) -> bool)
    ensures
        (forall|i: int| 0 <= i < s.len() ==> pred(#[trigger] s[i])) ==> s.filter(pred) == s,
        (forall|i: int| 0 <= i < s.len() ==> !pred(#[trigger] s[i])) ==> s.filter(pred).len() == 0,
    decreases s.len(),
{
    reveal(Seq::filter);
    if s.len() > 0 {
        let t = s.drop_last();
        lemma_filter_all(t, pred);
        assert(forall|i: int| 0 <= i < t.len() ==> t[i] == s[i]);
        assert(s.last() == s[s.len() - 1]);
        assert(t.push(s.last()) =~= s);
    }
}

/// Where an id stands in a plan.
proof fn lemma_places<C>(
    live: Seq<(Seq<char>, JsonV)>,
    restart_all: bool,
    valid: Seq<(Seq<char>, C, JsonV)>,
    id: Seq<char>,
)
    requires
        forall|i: int, j: int|
            0 <= i < j < valid.len() ==> (#[trigger] valid[i]).0 != (#[trigger] valid[j]).0,
    ensures
        ({
            let keep = kept_among(live, restart_all, valid, valid.len());
            let changed = changed_among(live, restart_all, valid, valid.len());
            let removed = removed_among(live, valid, live.len());
            let start = started_ids(started_among(live, restart_all, valid, valid.len()));
            &&& keep.contains(id) ==> succeeds(valid, id) && has_id(live, id) && !changed.contains(id)
                && !start.contains(id)
            &&& changed.contains(id) <==> start.contains(id) && has_id(live, id)
            &&& start.contains(id) ==> succeeds(valid, id)
            &&& succeeds(valid, id) ==> keep.contains(id) || start.contains(id)
            &&& removed.contains(id) <==> has_id(live, id) && !succeeds(valid, id)
        }),
{
    lemma_membership(live, restart_all, valid, valid.len(), id);
    lemma_removed_membership(live, valid, live.len(), id);
    lemma_runs(live, live.len(), id);
    lemma_parts_distinct(live, restart_all, valid, valid.len());
}

proof fn lemma_kept_exactly<C>(
    live: Seq<(Seq<char>, JsonV)>,
    restart_all: bool,
    valid: Seq<(Seq<char>, C, JsonV)>,
    id: Seq<char>,
)
    requires
        forall|i: int, j: int|
            0 <= i < j < live.len() ==> (#[trigger] live[i]).0 != (#[trigger] live[j]).0,
    ensures
        kept_among(live, restart_all, valid, valid.len()).contains(id) <==> !restart_all
            && same_subtree(live, valid, id),
{
    lemma_membership(live, restart_all, valid, valid.len(), id);
    lemma_runs(live, live.len(), id);
    if has_id(live, id) {
        let i = choose|i: int| 0 <= i < live.len() && (#[trigger] live[i]).0 == id;
        lemma_first_is_only(live, live.len(), i);
        assert(runs_from(live, id) == Some(live[i].1));
        if kept_among(live, restart_all, valid, valid.len()).contains(id) {
            let j = choose|j: int|
                0 <= j < valid.len() && (#[trigger] valid[j]).0 == id && untouched(
                    live,
                    restart_all,
                    valid[j],
                );
            assert(live[i].1 == valid[j].2);
        }
        if !restart_all && same_subtree(live, valid, id) {
            let (a, j) = choose|a: int, j: int|
                {
                    &&& 0 <= a < live.len()
                    &&& 0 <= j < valid.len()
                    &&& (#[trigger] live[a]).0 == id
                    &&& (#[trigger] valid[j]).0 == id
                    &&& live[a].1 == valid[j].2
                };
            lemma_first_is_only(live, live.len(), a);
            assert(untouched(live, restart_all, valid[j]));
        }
    }
}

/// Whether an instance runs from the very subtree, as JSON, that the candidate holds for it.
pub open spec fn same_subtree<C>(
    live: Seq<(Seq<char>, JsonV)>,
    valid: Seq<(Seq<char>, C, JsonV)>,
    id: Seq<char>,
) -> bool {
    exists|i: int, j: int|
        {
            &&& 0 <= i < live.len()
            &&& 0 <= j < valid.len()
            &&& (#[trigger] live[i]).0 == id
            &&& (#[trigger] valid[j]).0 == id
            &&& live[i].1 == valid[j].2
        }
}

/// The ids that are stopped and not launched again.
pub open spec fn not_restarted<C>(stop: Seq<Seq<char>>, start: Seq<(Seq<char>, C, JsonV)>) -> Seq<
    Seq<char>,
> {
    stop.filter(|id: Seq<char>| !started_ids(start).contains(id))
}

proof fn lemma_not_restarted<C>(
    changed: Seq<Seq<char>>,
    removed: Seq<Seq<char>>,
    start: Seq<(Seq<char>, C, JsonV)>,
)
    requires
        forall|id: Seq<char>| #[trigger]
            changed.contains(id) ==> started_ids(start).contains(id),
        forall|id: Seq<char>| #[trigger]
            removed.contains(id) ==> !started_ids(start).contains(id),
    ensures
        not_restarted(changed + removed, start) == removed,
{
    let unsucceeded = |id: Seq<char>| !started_ids(start).contains(id);
    Seq::filter_distributes_over_add(changed, removed, unsucceeded);
    lemma_filter_all(changed, unsucceeded);
    lemma_filter_all(removed, unsucceeded);
    assert forall|i: int| 0 <= i < changed.len() implies !unsucceeded(#[trigger] changed[i]) by {
        assert(changed.contains(changed[i]));
    }
    assert forall|i: int| 0 <= i < removed.len() implies unsucceeded(#[trigger] removed[i]) by {
        assert(removed.contains(removed[i]));
    }
    assert(changed.filter(unsucceeded) + removed =~= removed);
}

/// The plan as a whole. Of what runs, each instance is left alone or stopped, and none twice. Of what the
/// candidate can run, each instance is left alone or launched, and none twice. What nothing succeeds is
/// what is stopped and not launched again. Everything restarts exactly when something outside the
/// instances changed, and an instance is left alone exactly when nothing restarts everything and its
/// subtree, as JSON, is the one it runs from.
pub proof fn a_plan_accounts_for_every_instance<C>(
    live: Seq<(Seq<char>, JsonV)>,
    bound: JsonV,
    raw: JsonV,
    global: Result<GlobalConfig, String>,
    outcomes: Seq<Result<C, String>>,
)
    requires
        forall|i: int, j: int|
            0 <= i < j < live.len() ==> (#[trigger] live[i]).0 != (#[trigger] live[j]).0,
        outcomes.len() == candidates(raw).len(),
        planned(live, bound, raw, global, outcomes) is Ok,
    ensures
        ({
            let p = planned(live, bound, raw, global, outcomes)->Ok_0;
            let valid = valid_among(candidates(raw), outcomes, outcomes.len());
            let start = started_ids(p.start);
            &&& (p.keep + p.stop).no_duplicates()
            &&& forall|id: Seq<char>| #[trigger]
                (p.keep + p.stop).contains(id) <==> has_id(live, id)
            &&& (p.keep + start).no_duplicates()
            &&& forall|id: Seq<char>| #[trigger]
                (p.keep + start).contains(id) <==> succeeds(valid, id)
            &&& p.removed == not_restarted(p.stop, p.start)
            &&& p.restart_all <==> without_instances(raw) != bound
            &&& forall|id: Seq<char>| #[trigger]
                p.keep.contains(id) <==> !p.restart_all && same_subtree(live, valid, id)
        }),
{
    let p = planned(live, bound, raw, global, outcomes)->Ok_0;
    let all = candidates(raw);
    let valid = valid_among(all, outcomes, outcomes.len());
    let restart_all = without_instances(raw) != bound;
    let start = started_ids(p.start);
    let changed = changed_among(live, restart_all, valid, valid.len());
    candidate_ids_are_distinct(declared(raw), declared(raw).len());
    lemma_valid_ids(all, outcomes, outcomes.len());
    lemma_parts_distinct(live, restart_all, valid, valid.len());
    lemma_removed_distinct(live, valid, live.len());
    assert forall|id: Seq<char>| #[trigger] changed.contains(id) implies start.contains(id)
        && !p.removed.contains(id) by {
        lemma_places(live, restart_all, valid, id);
    }
    assert forall|id: Seq<char>| #[trigger] p.removed.contains(id) implies !start.contains(id) by {
        lemma_places(live, restart_all, valid, id);
    }
    lemma_add_keeps_distinct(changed, p.removed);
    assert forall|id: Seq<char>| #[trigger] p.keep.contains(id) implies !p.stop.contains(id)
        && !start.contains(id) by {
        lemma_contains_add(changed, p.removed, id);
        lemma_places(live, restart_all, valid, id);
    }
    lemma_add_keeps_distinct(p.keep, p.stop);
    lemma_add_keeps_distinct(p.keep, start);
    lemma_not_restarted(changed, p.removed, p.start);
    assert forall|id: Seq<char>| #[trigger] (p.keep + p.stop).contains(id) <==> has_id(live, id) by {
        lemma_contains_add(p.keep, p.stop, id);
        lemma_contains_add(changed, p.removed, id);
        lemma_places(live, restart_all, valid, id);
    }
    assert forall|id: Seq<char>| #[trigger] (p.keep + start).contains(id) <==> succeeds(valid, id) by {
        lemma_contains_add(p.keep, start, id);
        lemma_places(live, restart_all, valid, id);
    }
    assert forall|id: Seq<char>| #[trigger] p.keep.contains(id) <==> !p.restart_all && same_subtree(
        live,
        valid,
        id,
    ) by {
        lemma_kept_exactly(live, restart_all, valid, id);
    }
}

// ---- what a document declares ----

/// A document without its instances keeps everything else: its members, and the members of its component.
/// So two documents that differ in their instances alone are the same without them, and two that differ
/// anywhere else are not.
pub proof fn only_the_instances_are_left_out(
    m: Map<Seq<char>, JsonV>,
    c: Map<Seq<char>, JsonV>,
    d: Map<Seq<char>, JsonV>,
    key: Seq<char>,
)
    requires
        m.dom().contains("component"@),
        m["component"@] == JsonV::Object(c),
    ensures
        without_instances(JsonV::Object(m)) is Object,
        ({
            let out = without_instances(JsonV::Object(m))->Object_0;
            &&& out.dom() == m.dom()
            &&& key != "component"@ && m.dom().contains(key) ==> out[key] == m[key]
            &&& out["component"@] is Object
            &&& !out["component"@]->Object_0.dom().contains("instances"@)
            &&& key != "instances"@ ==> (out["component"@]->Object_0.dom().contains(key)
                <==> c.dom().contains(key))
            &&& key != "instances"@ && c.dom().contains(key) ==> out["component"@]->Object_0[key]
                == c[key]
        }),
        without_instances(JsonV::Object(m)) == without_instances(
            JsonV::Object(m.insert("component"@, JsonV::Object(d))),
        ) <==> c.remove("instances"@) == d.remove("instances"@),
{
    let out = m.insert("component"@, JsonV::Object(c.remove("instances"@)));
    assert(out.dom() =~= m.dom());
    let n = m.insert("component"@, JsonV::Object(d));
    let other = n.insert("component"@, JsonV::Object(d.remove("instances"@)));
    assert(other =~= m.insert("component"@, JsonV::Object(d.remove("instances"@))));
    if out == other {
        assert(out["component"@] == other["component"@]);
    }
}

/// Every declared entry with an id is a candidate, under the first entry that has the id; and a candidate
/// is nothing but such an entry. The candidates keep the order of their first entries.
pub proof fn every_declared_instance_is_a_candidate(entries: Seq<JsonV>, n: nat, i: int)
    requires
        n <= entries.len(),
        0 <= i < n,
        declared_id(entries[i]) is Some,
        forall|j: int| 0 <= j < i ==> declared_id(#[trigger] entries[j]) != declared_id(entries[i]),
    ensures
        candidates_among(entries, n).contains((declared_id(entries[i])->0, entries[i])),
    decreases n,
{
    let id = declared_id(entries[i])->0;
    let before = candidates_among(entries, (n - 1) as nat);
    if i == n - 1 {
        candidates_are_declared_before(entries, (n - 1) as nat, id);
        let now = candidates_among(entries, n);
        assert(!has_id(before, id));
        assert(now == before.push((id, entries[n - 1])));
        assert(now[before.len() as int] == (id, entries[i]));
    } else {
        every_declared_instance_is_a_candidate(entries, (n - 1) as nat, i);
        let k = choose|k: int| 0 <= k < before.len() && before[k] == (id, entries[i]);
        assert(candidates_among(entries, n)[k] == (id, entries[i]));
    }
}

/// An id that no entry has is no candidate's.
proof fn candidates_are_declared_before(entries: Seq<JsonV>, n: nat, id: Seq<char>)
    requires
        n <= entries.len(),
        forall|j: int| 0 <= j < n ==> declared_id(#[trigger] entries[j]) != Some(id),
    ensures
        !has_id(candidates_among(entries, n), id),
    decreases n,
{
    if n > 0 {
        candidates_are_declared_before(entries, (n - 1) as nat, id);
        let before = candidates_among(entries, (n - 1) as nat);
        let now = candidates_among(entries, n);
        if has_id(now, id) {
            let k = choose|k: int| 0 <= k < now.len() && (#[trigger] now[k]).0 == id;
            if k < before.len() {
                assert(before[k].0 == id);
            } else {
                assert(declared_id(entries[n - 1]) == Some(id));
            }
        }
    }
}

/// The id of an entry is its text under `id`; the entries of a document are the array under `instances`
/// of its `component`, and a document without one has none.
pub proof fn instances_stand_under_the_component(raw: JsonV, m: Map<Seq<char>, JsonV>)
    ensures
        m.dom().contains("id"@) && m["id"@] is Text ==> declared_id(JsonV::Object(m)) == Some(
            m["id"@]->Text_0,
        ),
        !m.dom().contains("id"@) ==> declared_id(JsonV::Object(m)) is None,
        m.dom().contains("id"@) && !(m["id"@] is Text) ==> declared_id(JsonV::Object(m)) is None,
        !(raw is Object) ==> declared(raw).len() == 0 && declared_id(raw) is None,
        raw == JsonV::Object(m) && !m.dom().contains("component"@) ==> declared(raw).len() == 0,
        raw == JsonV::Object(m) && m.dom().contains("component"@) && (m["component"@] matches JsonV::Object(
            c,
        ) && c.dom().contains("instances"@) && c["instances"@] is Array) ==> declared(raw) == (
        m["component"@]->Object_0)["instances"@]->Array_0,
{
}

/// Every candidate can be run or is skipped, never both and never neither: those that can, with what they
/// parsed to and their own subtree, and those that cannot, with their own reason, each in order. Where
/// they stand among the candidates is returned.
pub proof fn a_candidate_can_be_run_or_is_skipped<C>(
    all: Seq<(Seq<char>, JsonV)>,
    outcomes: Seq<Result<C, String>>,
    n: nat,
) -> (r: (Seq<int>, Seq<int>))
    requires
        n <= outcomes.len(),
    ensures
        valid_among(all, outcomes, n).len() == r.0.len(),
        skipped_among(all, outcomes, n).len() == r.1.len(),
        r.0.len() + r.1.len() == n,
        forall|k: int|
            0 <= k < r.0.len() ==> 0 <= #[trigger] r.0[k] < n && (outcomes[r.0[k]] matches Ok(cfg)
                && valid_among(all, outcomes, n)[k] == (all[r.0[k]].0, cfg, all[r.0[k]].1)),
        forall|k: int|
            0 <= k < r.1.len() ==> 0 <= #[trigger] r.1[k] < n && (outcomes[r.1[k]] matches Err(e)
                && skipped_among(all, outcomes, n)[k] == (all[r.1[k]].0, e@)),
        forall|i: int, j: int| 0 <= i < j < r.0.len() ==> r.0[i] < r.0[j],
        forall|i: int, j: int| 0 <= i < j < r.1.len() ==> r.1[i] < r.1[j],
        forall|i: int|
            0 <= i < n ==> (if (#[trigger] outcomes[i]) is Ok {
                r.0.contains(i)
            } else {
                r.1.contains(i)
            }),
    decreases n,
{
    if n == 0 {
        (Seq::empty(), Seq::empty())
    } else {
        let (v, s) = a_candidate_can_be_run_or_is_skipped(all, outcomes, (n - 1) as nat);
        let out = if outcomes[n - 1] is Ok {
            (v.push(n - 1), s)
        } else {
            (v, s.push(n - 1))
        };
        assert forall|i: int| 0 <= i < n implies (if (#[trigger] outcomes[i]) is Ok {
            out.0.contains(i)
        } else {
            out.1.contains(i)
        }) by {
            crate::engine::lemma_int_push(v, n - 1, i);
            crate::engine::lemma_int_push(s, n - 1, i);
        }
        out
    }
}

/// A change is planned exactly when the component's own settings are valid and at least one instance can
/// be run; otherwise it is refused, for the settings first, and the reason is theirs. A plan carries the
/// new settings, and reports every instance that is skipped.
pub proof fn a_change_is_planned_when_something_can_run<C>(
    live: Seq<(Seq<char>, JsonV)>,
    bound: JsonV,
    raw: JsonV,
    global: Result<GlobalConfig, String>,
    outcomes: Seq<Result<C, String>>,
)
    ensures
        global matches Err(e) ==> planned(live, bound, raw, global, outcomes) == Err::<
            PlanV<C>,
            Option<Seq<char>>,
        >(Some(e@)),
        global is Ok && (forall|i: int| 0 <= i < outcomes.len() ==> (#[trigger] outcomes[i]) is Err)
            ==> planned(live, bound, raw, global, outcomes) == Err::<PlanV<C>, Option<Seq<char>>>(None),
        global is Ok && (exists|i: int| 0 <= i < outcomes.len() && (#[trigger] outcomes[i]) is Ok) ==> (
        planned(live, bound, raw, global, outcomes) matches Ok(p) && p.global == global->Ok_0 && p.skipped
            == skipped_among(candidates(raw), outcomes, outcomes.len())),
{
    let all = candidates(raw);
    let (v, s) = a_candidate_can_be_run_or_is_skipped(all, outcomes, outcomes.len());
    if exists|i: int| 0 <= i < outcomes.len() && (#[trigger] outcomes[i]) is Ok {
        let i = choose|i: int| 0 <= i < outcomes.len() && (#[trigger] outcomes[i]) is Ok;
        assert(v.contains(i));
    } else if v.len() > 0 {
        assert(0 <= v[0] < outcomes.len());
    }
}

} // verus!
