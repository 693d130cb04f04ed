//! The running state of every signal of one device.

use vstd::prelude::*;

use crate::clock::Instant;
use crate::device::Reading;
use crate::json::{Json, JsonV};
use crate::publish::{is_stale, samples, stale, BatcherV, Sample, SampleV, SignalState, StateV};
use crate::text::texts;

verus! {

/// One signal's samples, to ride one update.
#[derive(Debug)]
pub struct Publish {
    pub signal_id: String,
    pub samples: Vec<Sample>,
}

/// One signal's samples, to ride one update.
pub struct PublishV {
    pub signal_id: Seq<char>,
    pub samples: Seq<SampleV>,
}

impl View for Publish {
    type V = PublishV;

    open spec fn view(&self) -> PublishV {
        PublishV { signal_id: self.signal_id@, samples: samples(self.samples@) }
    }
}

/// The updates of a list, in order.
pub open spec fn publishes(s: Seq<Publish>) -> Seq<PublishV> {
    Seq::new(s.len(), |i: int| s[i]@)
}

#[derive(Debug)]
pub struct Entry {
    id: String,
    state: SignalState,
}

/// The running state of every signal, by its stable id.
#[derive(Debug)]
pub struct Engine {
    entries: Vec<Entry>,
    /// The staleness reference of a signal that was never read.
    start: Instant,
}

spec fn has_id(entries: Seq<Entry>, i: int, id: Seq<char>) -> bool {
    0 <= i < entries.len() && entries[i].id@ == id
}

spec fn distinct(entries: Seq<Entry>) -> bool {
    forall|i: int, j: int| 0 <= i < j < entries.len() ==> entries[i].id@ != entries[j].id@
}

impl Engine {
    /// Every signal has one state.
    pub closed spec fn wf(self) -> bool {
        distinct(self.entries@)
    }

    /// The staleness reference of a signal that was never read.
    pub closed spec fn since(self) -> Instant {
        self.start
    }

    /// The signals that have been seen, in the order they were first seen.
    pub closed spec fn known(self) -> Seq<Seq<char>> {
        Seq::new(self.entries@.len(), |i: int| self.entries@[i].id@)
    }

    /// The state of a signal; one that has not been seen is unread.
    pub closed spec fn signal(self, id: Seq<char>) -> StateV {
        if exists|i: int| has_id(self.entries@, i, id) {
            self.entries@[choose|i: int| has_id(self.entries@, i, id)].state@
        } else {
            StateV::unread()
        }
    }

    /// This engine with signal `id` in state `st`, and every other signal as it was.
    pub open spec fn is_update_of(self, before: Engine, id: Seq<char>, st: StateV) -> bool {
        &&& self.wf()
        &&& self.since() == before.since()
        &&& self.known() == (if before.known().contains(id) {
            before.known()
        } else {
            before.known().push(id)
        })
        &&& self.signal(id) == st
        &&& forall|k: Seq<char>| k != id ==> #[trigger] self.signal(k) == before.signal(k)
    }

    /// This engine once the publish of signal `id` is known to have succeeded or failed.
    pub open spec fn settled_from(self, before: Engine, id: Seq<char>, published: bool) -> bool {
        &&& self.wf()
        &&& self.since() == before.since()
        &&& self.known() == before.known()
        &&& self.signal(id) == before.signal(id).settled(published)
        &&& forall|k: Seq<char>| k != id ==> #[trigger] self.signal(k) == before.signal(k)
    }

    /// This engine once every window that is due was emptied.
    pub open spec fn drained_from(self, before: Engine, now: Instant, batch_ms: u64) -> bool {
        &&& self.wf()
        &&& self.since() == before.since()
        &&& self.known() == before.known()
        &&& forall|k: Seq<char>| #[trigger]
            self.signal(k) == drained(before.signal(k), now, batch_ms)
    }

    /// This engine once every open window was dropped.
    pub open spec fn discarded_from(self, before: Engine) -> bool {
        &&& self.wf()
        &&& self.since() == before.since()
        &&& self.known() == before.known()
        &&& forall|k: Seq<char>| #[trigger] self.signal(k) == before.signal(k).discarded()
    }

    /// This engine once staleness counts from `now` on.
    pub open spec fn refreshed_from(self, before: Engine, now: Instant) -> bool {
        &&& self.wf()
        &&& self.since() == now
        &&& self.known() == before.known()
        &&& forall|k: Seq<char>| #[trigger] self.signal(k) == refreshed(before.signal(k), now)
    }

    /// This engine once later values are compared with those of a snapshot.
    pub open spec fn rebased_from(
        self,
        before: Engine,
        snapshot: Seq<Reading>,
        now: Instant,
    ) -> bool {
        &&& self.wf()
        &&& self.since() == now
        &&& forall|k: Seq<char>| #[trigger]
            self.known().contains(k) <==> before.known().contains(k) || snapshot_of(snapshot, k) is Some
        &&& forall|k: Seq<char>| #[trigger]
            self.signal(k) == rebased(before.signal(k), snapshot_of(snapshot, k), now)
    }

    /// `r` is when the first open window closes, if one is open.
    pub open spec fn first_close(self, batch_ms: u64, r: Option<u128>) -> bool {
        match r {
            Some(d) => {
                &&& exists|k: Seq<char>| #[trigger]
                    closes(self.signal(k), batch_ms) == Some(d as int)
                &&& forall|k: Seq<char>| (#[trigger] closes(self.signal(k), batch_ms)) matches Some(
                    e,
                ) ==> d <= e
            },
            None => forall|k: Seq<char>| (#[trigger] closes(self.signal(k), batch_ms)) is None,
        }
    }

    proof fn lemma_at(self, i: int)
        requires
            self.wf(),
            0 <= i < self.entries@.len(),
        ensures
            self.signal(self.entries@[i].id@) == self.entries@[i].state@,
            self.known().contains(self.entries@[i].id@),
    {
        let id = self.entries@[i].id@;
        assert(has_id(self.entries@, i, id));
        let c = choose|c: int| has_id(self.entries@, c, id);
        assert(c == i) by {
            if c < i {
                assert(self.entries@[c].id@ != self.entries@[i].id@);
            }
            if i < c {
                assert(self.entries@[i].id@ != self.entries@[c].id@);
            }
        }
        assert(self.known()[i] == id);
    }

    proof fn lemma_absent(self, id: Seq<char>)
        requires
            forall|i: int| 0 <= i < self.entries@.len() ==> self.entries@[i].id@ != id,
        ensures
            self.signal(id) == StateV::unread(),
            !self.known().contains(id),
    {
        assert(!exists|i: int| has_id(self.entries@, i, id));
    }

    /// The signals are those that were there, each in the state of its entry.
    proof fn lemma_same_ids(self, before: Engine)
        requires
            before.wf(),
            self.entries@.len() == before.entries@.len(),
            forall|i: int|
                0 <= i < self.entries@.len() ==> #[trigger] self.entries@[i].id@
                    == before.entries@[i].id@,
        ensures
            self.wf(),
            self.known() == before.known(),
            forall|k: Seq<char>| !self.known().contains(k) ==> #[trigger] self.signal(k)
                == StateV::unread(),
            forall|k: Seq<char>| !before.known().contains(k) ==> #[trigger] before.signal(k)
                == StateV::unread(),
    {
        assert(distinct(self.entries@)) by {
            assert forall|i: int, j: int| 0 <= i < j < self.entries@.len() implies self.entries@[i].id@
                != self.entries@[j].id@ by {
                assert(self.entries@[i].id@ == before.entries@[i].id@);
                assert(self.entries@[j].id@ == before.entries@[j].id@);
            }
        }
        assert(self.known() =~= before.known());
        assert forall|k: Seq<char>| !self.known().contains(k) implies #[trigger] self.signal(k)
            == StateV::unread() by {
            assert forall|i: int| 0 <= i < self.entries@.len() implies self.entries@[i].id@ != k by {
                assert(self.known()[i] == self.entries@[i].id@);
            }
            self.lemma_absent(k);
        }
        assert forall|k: Seq<char>| !before.known().contains(k) implies #[trigger] before.signal(k)
            == StateV::unread() by {
            assert forall|i: int| 0 <= i < before.entries@.len() implies before.entries@[i].id@ != k by {
                assert(before.known()[i] == before.entries@[i].id@);
            }
            before.lemma_absent(k);
        }
    }

    /// The engine of a device that starts now.
    pub fn new(start: Instant) -> (r: Engine)
        ensures
            r.wf(),
            r.since() == start,
            r.known() == Seq::<Seq<char>>::empty(),
            forall|k: Seq<char>| #[trigger] r.signal(k) == StateV::unread(),
    {
        let entries: Vec<Entry> = Vec::new();
        let r = Engine { entries, start };
        assert(r.known() =~= Seq::<Seq<char>>::empty());
        r
    }

    fn find(&self, id: &str) -> (r: Option<usize>)
        ensures
            match r {
                Some(i) => i < self.entries@.len() && self.entries@[i as int].id@ == id@,
                None => forall|i: int| 0 <= i < self.entries@.len() ==> self.entries@[i].id@ != id@,
            },
    {
        let wanted = id.to_owned();
        let mut i: usize = 0;
        while i < self.entries.len()
            invariant
                i <= self.entries@.len(),
                wanted@ == id@,
                forall|j: int| 0 <= j < i ==> self.entries@[j].id@ != id@,
            decreases self.entries@.len() - i,
        {
            if self.entries[i].id == wanted {
                return Some(i);
            }
            i = i + 1;
        }
        None
    }

    /// What the publish filter compares the next value of a signal with.
    pub fn reference(&self, id: &str) -> (r: Option<&Json>)
        requires
            self.wf(),
        ensures
            match r {
                Some(v) => self.signal(id@).reference() == Some(v@),
                None => self.signal(id@).reference() is None,
            },
    {
        match self.find(id) {
            Some(i) => {
                proof {
                    self.lemma_at(i as int);
                }
                self.entries[i].state.reference()
            },
            None => {
                proof {
                    self.lemma_absent(id@);
                }
                None
            },
        }
    }

    /// Take the state of a signal out, to be put back with [`Engine::put`].
    pub fn take(&mut self, id: &str) -> (st: SignalState)
        requires
            old(self).wf(),
        ensures
            st@ == old(self).signal(id@),
            final(self).is_update_of(*old(self), id@, StateV::unread()),
    {
        match self.find(id) {
            Some(i) => {
                proof {
                    self.lemma_at(i as int);
                }
                let mut st = SignalState::new();
                std::mem::swap(&mut st, &mut self.entries[i].state);
                proof {
                    self.lemma_same_ids(*old(self));
                    self.lemma_at(i as int);
                    assert forall|k: Seq<char>| k != id@ implies #[trigger] self.signal(k) == old(
                        self,
                    ).signal(k) by {
                        self.lemma_unchanged(*old(self), i as int, k);
                    }
                }
                st
            },
            None => {
                proof {
                    self.lemma_absent(id@);
                }
                self.entries.push(Entry { id: id.to_owned(), state: SignalState::new() });
                proof {
                    self.lemma_pushed(*old(self), id@);
                }
                SignalState::new()
            },
        }
    }

    /// A signal whose entry was left alone is in the state it was in.
    proof fn lemma_unchanged(self, before: Engine, i: int, k: Seq<char>)
        requires
            self.wf(),
            before.wf(),
            self.entries@.len() == before.entries@.len(),
            0 <= i < self.entries@.len(),
            self.entries@[i].id@ == before.entries@[i].id@,
            forall|j: int|
                0 <= j < self.entries@.len() && j != i ==> self.entries@[j] == before.entries@[j],
            k != self.entries@[i].id@,
        ensures
            self.signal(k) == before.signal(k),
    {
        if exists|j: int| has_id(before.entries@, j, k) {
            let j = choose|j: int| has_id(before.entries@, j, k);
            assert(j != i);
            before.lemma_at(j);
            self.lemma_at(j);
        } else {
            before.lemma_absent_if(k);
            assert forall|j: int| 0 <= j < self.entries@.len() implies self.entries@[j].id@ != k by {
                assert(!has_id(before.entries@, j, k));
            }
            self.lemma_absent(k);
        }
    }

    proof fn lemma_absent_if(self, k: Seq<char>)
        requires
            !exists|j: int| has_id(self.entries@, j, k),
        ensures
            self.signal(k) == StateV::unread(),
    {
    }

    proof fn lemma_pushed(self, before: Engine, id: Seq<char>)
        requires
            before.wf(),
            self.start == before.start,
            self.entries@.len() == before.entries@.len() + 1,
            forall|j: int| 0 <= j < before.entries@.len() ==> self.entries@[j] == before.entries@[j],
            self.entries@.last().id@ == id,
            self.entries@.last().state@ == StateV::unread(),
            forall|j: int| 0 <= j < before.entries@.len() ==> before.entries@[j].id@ != id,
        ensures
            self.is_update_of(before, id, StateV::unread()),
            !before.known().contains(id),
            before.signal(id) == StateV::unread(),
    {
        before.lemma_absent(id);
        let n = before.entries@.len() as int;
        assert(distinct(self.entries@)) by {
            assert forall|a: int, b: int| 0 <= a < b < self.entries@.len() implies self.entries@[a].id@
                != self.entries@[b].id@ by {
                assert(self.entries@[a] == before.entries@[a]);
                if b < n {
                    assert(before.entries@[a].id@ != before.entries@[b].id@);
                }
            }
        }
        self.lemma_at(n);
        assert(self.known() =~= before.known().push(id));
        assert forall|k: Seq<char>| k != id implies #[trigger] self.signal(k) == before.signal(k) by {
            if exists|j: int| has_id(before.entries@, j, k) {
                let j = choose|j: int| has_id(before.entries@, j, k);
                assert(self.entries@[j] == before.entries@[j]);
                before.lemma_at(j);
                self.lemma_at(j);
            } else {
                assert forall|j: int| 0 <= j < self.entries@.len() implies self.entries@[j].id@ != k by {
                    if j < n {
                        assert(!has_id(before.entries@, j, k));
                    }
                }
                self.lemma_absent(k);
            }
        }
    }

    /// Put the state of a signal that was seen back.
    pub fn put(&mut self, id: &str, st: SignalState)
        requires
            old(self).wf(),
        ensures
            final(self).is_update_of(*old(self), id@, st@),
    {
        match self.find(id) {
            Some(i) => {
                proof {
                    self.lemma_at(i as int);
                }
                let mut new = st;
                std::mem::swap(&mut new, &mut self.entries[i].state);
                proof {
                    self.lemma_same_ids(*old(self));
                    self.lemma_at(i as int);
                    assert forall|k: Seq<char>| k != id@ implies #[trigger] self.signal(k) == old(
                        self,
                    ).signal(k) by {
                        self.lemma_unchanged(*old(self), i as int, k);
                    }
                }
            },
            None => {
                let ghost target = st@;
                self.entries.push(Entry { id: id.to_owned(), state: SignalState::new() });
                proof {
                    self.lemma_pushed(*old(self), id@);
                }
                let ghost mid = *self;
                let at: usize = self.entries.len() - 1;
                let mut new = st;
                std::mem::swap(&mut new, &mut self.entries[at].state);
                proof {
                    self.lemma_same_ids(mid);
                    self.lemma_at(at as int);
                    assert forall|k: Seq<char>| k != id@ implies #[trigger] self.signal(k) == old(
                        self,
                    ).signal(k) by {
                        self.lemma_unchanged(mid, at as int, k);
                    }
                }
            },
        }
    }

    /// Promote the signal's pending value when its publish succeeded, drop it when it failed. A signal
    /// never seen has nothing pending.
    pub fn settle(&mut self, id: &str, published: bool)
        requires
            old(self).wf(),
        ensures
            final(self).settled_from(*old(self), id@, published),
    {
        match self.find(id) {
            Some(i) => {
                proof {
                    self.lemma_at(i as int);
                }
                self.entries[i].state.settle(published);
                proof {
                    self.lemma_same_ids(*old(self));
                    self.lemma_at(i as int);
                    assert forall|k: Seq<char>| k != id@ implies #[trigger] self.signal(k) == old(
                        self,
                    ).signal(k) by {
                        self.lemma_unchanged(*old(self), i as int, k);
                    }
                }
            },
            None => {
                proof {
                    self.lemma_absent(id@);
                }
            },
        }
    }

    /// Every window that has closed by `now`, emptied into one update each, in the order the signals
    /// were first seen.
    pub fn take_due(&mut self, batch_ms: u64, now: Instant) -> (out: Vec<Publish>)
        requires
            old(self).wf(),
        ensures
            final(self).drained_from(*old(self), now, batch_ms),
            publishes(out@) == flushes(old(self).known(), *old(self), now, batch_ms),
    {
        let mut out: Vec<Publish> = Vec::new();
        let mut i: usize = 0;
        let ghost before = *self;
        proof {
            assert(before.known().take(0) =~= Seq::<Seq<char>>::empty());
            assert(publishes(out@) =~= Seq::<PublishV>::empty());
        }
        while i < self.entries.len()
            invariant
                i <= self.entries@.len(),
                before.wf(),
                self.start == before.start,
                self.entries@.len() == before.entries@.len(),
                forall|j: int|
                    0 <= j < self.entries@.len() ==> #[trigger] self.entries@[j].id@
                        == before.entries@[j].id@,
                forall|j: int|
                    0 <= j < i ==> #[trigger] self.entries@[j].state@ == drained(
                        before.entries@[j].state@,
                        now,
                        batch_ms,
                    ),
                forall|j: int|
                    i <= j < self.entries@.len() ==> #[trigger] self.entries@[j] == before.entries@[j],
                publishes(out@) == flushes(before.known().take(i as int), before, now, batch_ms),
            decreases self.entries@.len() - i,
        {
            let ghost id = before.entries@[i as int].id@;
            let ghost sofar = out@;
            proof {
                before.lemma_at(i as int);
                let next = before.known().take(i + 1);
                assert(next.drop_last() =~= before.known().take(i as int));
                assert(next.last() == id);
            }
            match self.entries[i].state.batcher.take_due(now, batch_ms) {
                Some(due) => {
                    let p = Publish { signal_id: self.entries[i].id.clone(), samples: due };
                    out.push(p);
                    assert(publishes(out@) =~= publishes(sofar).push(p@));
                },
                None => {},
            }
            i = i + 1;
        }
        proof {
            self.lemma_same_ids(before);
            assert(before.known().take(i as int) =~= before.known());
            assert forall|k: Seq<char>| #[trigger] self.signal(k) == drained(
                before.signal(k),
                now,
                batch_ms,
            ) by {
                self.lemma_mapped(before, k);
            }
        }
        out
    }

    /// A signal's entry is at the same place in both engines, or in neither.
    proof fn lemma_mapped(self, before: Engine, k: Seq<char>)
        requires
            self.wf(),
            before.wf(),
            self.entries@.len() == before.entries@.len(),
            forall|i: int|
                0 <= i < self.entries@.len() ==> #[trigger] self.entries@[i].id@
                    == before.entries@[i].id@,
        ensures
            (exists|i: int|
                0 <= i < self.entries@.len() && self.signal(k) == (#[trigger] self.entries@[i]).state@
                    && before.signal(k) == before.entries@[i].state@ && self.entries@[i].id@ == k) || (
            self.signal(k) == StateV::unread() && before.signal(k) == StateV::unread()
                && !before.known().contains(k)),
    {
        self.lemma_same_ids(before);
        if before.known().contains(k) {
            let i = choose|i: int| 0 <= i < before.known().len() && before.known()[i] == k;
            assert(self.entries@[i].id@ == before.entries@[i].id@);
            self.lemma_at(i);
            before.lemma_at(i);
        }
    }

    /// When the first open window closes, in nanoseconds on the clock.
    pub fn next_batch_deadline(&self, batch_ms: u64) -> (r: Option<u128>)
        requires
            self.wf(),
        ensures
            self.first_close(batch_ms, r),
    {
        let mut best: Option<u128> = None;
        let mut i: usize = 0;
        while i < self.entries.len()
            invariant
                i <= self.entries@.len(),
                self.wf(),
                match best {
                    Some(d) => {
                        &&& exists|j: int|
                            0 <= j < i && closes((#[trigger] self.entries@[j]).state@, batch_ms) == Some(
                                d as int,
                            )
                        &&& forall|j: int|
                            0 <= j < i ==> (closes((#[trigger] self.entries@[j]).state@, batch_ms) matches Some(
                                e,
                            ) ==> d <= e)
                    },
                    None => forall|j: int|
                        0 <= j < i ==> closes((#[trigger] self.entries@[j]).state@, batch_ms) is None,
                },
            decreases self.entries@.len() - i,
        {
            match self.entries[i].state.batcher.next_deadline(batch_ms) {
                Some(t) => {
                    assert(closes(self.entries@[i as int].state@, batch_ms) == Some(t as int));
                    match best {
                        Some(d) => {
                            if t < d {
                                best = Some(t);
                            }
                        },
                        None => {
                            best = Some(t);
                        },
                    }
                },
                None => {},
            }
            i = i + 1;
        }
        proof {
            if best is Some {
                let j = choose|j: int|
                    0 <= j < self.entries@.len() && closes((#[trigger] self.entries@[j]).state@, batch_ms)
                        == Some(best->0 as int);
                self.lemma_at(j);
                assert(closes(self.signal(self.entries@[j].id@), batch_ms) == Some(best->0 as int));
            }
            assert forall|k: Seq<char>| (#[trigger] closes(self.signal(k), batch_ms)) is Some implies best
                is Some && best->0 <= closes(self.signal(k), batch_ms)->0 by {
                self.lemma_mapped(*self, k);
            }
        }
        best
    }

    /// How many of `ids` are stale.
    pub fn count_stale(&self, ids: &Vec<String>, stale_secs: u64, now: Instant) -> (n: u64)
        requires
            self.wf(),
        ensures
            n == stale_among(texts(ids@), *self, stale_secs, now),
    {
        let mut n: u64 = 0;
        let mut i: usize = 0;
        assert(texts(ids@).take(0) =~= Seq::<Seq<char>>::empty());
        while i < ids.len()
            invariant
                i <= ids@.len(),
                self.wf(),
                n == stale_among(texts(ids@).take(i as int), *self, stale_secs, now),
                n <= i,
            decreases ids@.len() - i,
        {
            proof {
                let next = texts(ids@).take(i + 1);
                assert(next.drop_last() =~= texts(ids@).take(i as int));
                assert(next.last() == ids@[i as int]@);
            }
            let last_good = match self.find(ids[i].as_str()) {
                Some(at) => {
                    proof {
                        self.lemma_at(at as int);
                    }
                    self.entries[at].state.last_good
                },
                None => {
                    proof {
                        self.lemma_absent(ids@[i as int]@);
                    }
                    None
                },
            };
            if is_stale(last_good, self.start, now, stale_secs) {
                n = n + 1;
            }
            i = i + 1;
        }
        assert(texts(ids@).take(i as int) =~= texts(ids@));
        n
    }

    /// Drop every open window; returns how many samples went with them.
    pub fn discard_open_batches(&mut self) -> (n: u128)
        requires
            old(self).wf(),
        ensures
            final(self).discarded_from(*old(self)),
            n == buffered(old(self).known(), *old(self)),
    {
        let mut n: u128 = 0;
        let mut i: usize = 0;
        let ghost before = *self;
        assert(before.known().take(0) =~= Seq::<Seq<char>>::empty());
        while i < self.entries.len()
            invariant
                i <= self.entries@.len(),
                before.wf(),
                self.start == before.start,
                self.entries@.len() == before.entries@.len(),
                forall|j: int|
                    0 <= j < self.entries@.len() ==> #[trigger] self.entries@[j].id@
                        == before.entries@[j].id@,
                forall|j: int|
                    0 <= j < i ==> #[trigger] self.entries@[j].state@
                        == before.entries@[j].state@.discarded(),
                forall|j: int|
                    i <= j < self.entries@.len() ==> #[trigger] self.entries@[j] == before.entries@[j],
                n == buffered(before.known().take(i as int), before),
                n <= i * 0xFFFF_FFFF_FFFF_FFFF,
            decreases self.entries@.len() - i,
        {
            proof {
                before.lemma_at(i as int);
                let next = before.known().take(i + 1);
                assert(next.drop_last() =~= before.known().take(i as int));
                assert(next.last() == before.entries@[i as int].id@);
                assert(i * 0xFFFF_FFFF_FFFF_FFFF + 0xFFFF_FFFF_FFFF_FFFF <= 0xFFFF_FFFF_FFFF_FFFF
                    * 0xFFFF_FFFF_FFFF_FFFF) by (nonlinear_arith)
                    requires
                        0 <= i < 0xFFFF_FFFF_FFFF_FFFF,
                ;
            }
            let dropped: usize = self.entries[i].state.discard();
            n = n + dropped as u128;
            i = i + 1;
        }
        proof {
            self.lemma_same_ids(before);
            assert(before.known().take(i as int) =~= before.known());
            assert forall|k: Seq<char>| #[trigger] self.signal(k) == before.signal(k).discarded() by {
                self.lemma_mapped(before, k);
            }
        }
        n
    }

    /// Count staleness from `now` on.
    pub fn rebase_stale(&mut self, now: Instant)
        requires
            old(self).wf(),
        ensures
            final(self).refreshed_from(*old(self), now),
    {
        let mut i: usize = 0;
        let ghost before = *self;
        while i < self.entries.len()
            invariant
                i <= self.entries@.len(),
                before.wf(),
                self.entries@.len() == before.entries@.len(),
                forall|j: int|
                    0 <= j < self.entries@.len() ==> #[trigger] self.entries@[j].id@
                        == before.entries@[j].id@,
                forall|j: int|
                    0 <= j < i ==> #[trigger] self.entries@[j].state@ == refreshed(
                        before.entries@[j].state@,
                        now,
                    ),
                forall|j: int|
                    i <= j < self.entries@.len() ==> #[trigger] self.entries@[j] == before.entries@[j],
            decreases self.entries@.len() - i,
        {
            if self.entries[i].state.last_good.is_some() {
                self.entries[i].state.last_good = Some(now);
            }
            i = i + 1;
        }
        self.start = now;
        proof {
            self.lemma_same_ids(before);
            assert forall|k: Seq<char>| #[trigger] self.signal(k) == refreshed(before.signal(k), now) by {
                self.lemma_mapped(before, k);
            }
        }
    }

    /// Compare later values with those of a snapshot, and count staleness from `now` on.
    pub fn rebase_from(&mut self, snapshot: &Vec<Reading>, now: Instant)
        requires
            old(self).wf(),
        ensures
            final(self).rebased_from(*old(self), snapshot@, now),
    {
        self.rebase_stale(now);
        let ghost mid = *self;
        let mut i: usize = 0;
        assert(snapshot@.take(0) =~= Seq::<Reading>::empty());
        while i < snapshot.len()
            invariant
                i <= snapshot@.len(),
                self.wf(),
                self.since() == now,
                forall|k: Seq<char>| #[trigger]
                    self.known().contains(k) <==> mid.known().contains(k) || snapshot_of(
                        snapshot@.take(i as int),
                        k,
                    ) is Some,
                forall|k: Seq<char>| #[trigger]
                    self.signal(k) == rebased(
                        mid.signal(k),
                        snapshot_of(snapshot@.take(i as int), k),
                        now,
                    ),
                forall|k: Seq<char>| #[trigger] refreshed(mid.signal(k), now) == mid.signal(k),
            decreases snapshot@.len() - i,
        {
            let ghost prev = *self;
            proof {
                let next = snapshot@.take(i + 1);
                assert(next.drop_last() =~= snapshot@.take(i as int));
                assert(next.last() == snapshot@[i as int]);
            }
            let id = snapshot[i].signal_id.as_str();
            let mut st = self.take(id);
            let ghost was = *self;
            st.baseline = Some(snapshot[i].value.copy());
            st.pending = None;
            st.last_good = Some(now);
            self.put(id, st);
            proof {
                assert forall|k: Seq<char>| #[trigger]
                    self.known().contains(k) <==> mid.known().contains(k) || snapshot_of(snapshot@.take(i + 1), k) is Some by {
                    lemma_push_contains(prev.known(), id@, k);
                    lemma_push_contains(was.known(), id@, k);
                }
                assert forall|k: Seq<char>| #[trigger] self.signal(k) == rebased(
                    mid.signal(k),
                    snapshot_of(snapshot@.take(i + 1), k),
                    now,
                ) by {
                    if k != id@ {
                        assert(self.signal(k) == was.signal(k));
                        assert(was.signal(k) == prev.signal(k));
                    } else {
                        assert(prev.signal(k) == rebased(
                            mid.signal(k),
                            snapshot_of(snapshot@.take(i as int), k),
                            now,
                        ));
                    }
                }
            }
            i = i + 1;
        }
        assert(snapshot@.take(i as int) =~= snapshot@);
        proof {
            assert forall|k: Seq<char>| #[trigger] self.signal(k) == rebased(
                old(self).signal(k),
                snapshot_of(snapshot@, k),
                now,
            ) by {
                assert(mid.signal(k) == refreshed(old(self).signal(k), now));
            }
        }
    }
}

proof fn lemma_push_contains(s: Seq<Seq<char>>, id: Seq<char>, k: Seq<char>)
    ensures
        s.push(id).contains(k) <==> s.contains(k) || k == id,
{
    if s.contains(k) {
        let i = choose|i: int| 0 <= i < s.len() && s[i] == k;
        assert(s.push(id)[i] == k);
    }
    assert(s.push(id)[s.len() as int] == id);
    if s.push(id).contains(k) && k != id {
        let i = choose|i: int| 0 <= i < s.push(id).len() && s.push(id)[i] == k;
        assert(s[i] == k);
    }
}

/// What the readings of a snapshot say of a signal; of two of them the later one counts.
pub open spec fn snapshot_of(snapshot: Seq<Reading>, id: Seq<char>) -> Option<JsonV>
    decreases snapshot.len(),
{
    if snapshot.len() == 0 {
        None
    } else if snapshot.last().signal_id@ == id {
        Some(snapshot.last().value@)
    } else {
        snapshot_of(snapshot.drop_last(), id)
    }
}

/// A state once its window was flushed, if it was due.
pub open spec fn drained(st: StateV, now: Instant, batch_ms: u64) -> StateV {
    if st.batcher.due(now, batch_ms) {
        StateV { batcher: BatcherV::idle(), ..st }
    } else {
        st
    }
}

/// A state whose last good read counts as just made.
pub open spec fn refreshed(st: StateV, now: Instant) -> StateV {
    StateV {
        last_good: if st.last_good is Some {
            Some(now)
        } else {
            None
        },
        ..st
    }
}

/// A state compared from now on with the value a snapshot holds, if it holds one.
pub open spec fn rebased(st: StateV, value: Option<JsonV>, now: Instant) -> StateV {
    match value {
        Some(v) => StateV { baseline: Some(v), pending: None, last_good: Some(now), ..st },
        None => refreshed(st, now),
    }
}

/// The updates of the windows that are due, in the order of `ids`.
pub open spec fn flushes(ids: Seq<Seq<char>>, e: Engine, now: Instant, batch_ms: u64) -> Seq<PublishV>
    decreases ids.len(),
{
    if ids.len() == 0 {
        Seq::empty()
    } else {
        let earlier = flushes(ids.drop_last(), e, now, batch_ms);
        let window = e.signal(ids.last()).batcher;
        if window.due(now, batch_ms) {
            earlier.push(PublishV { signal_id: ids.last(), samples: window.buffer })
        } else {
            earlier
        }
    }
}

/// When a state's window closes, in nanoseconds on the clock.
pub open spec fn closes(st: StateV, batch_ms: u64) -> Option<int> {
    match st.batcher.window_open {
        Some(t) => Some(t.due(batch_ms as int)),
        None => None,
    }
}

/// How many of `ids` are stale.
pub open spec fn stale_among(ids: Seq<Seq<char>>, e: Engine, stale_secs: u64, now: Instant) -> nat
    decreases ids.len(),
{
    if ids.len() == 0 {
        0
    } else {
        stale_among(ids.drop_last(), e, stale_secs, now) + if stale(
            e.signal(ids.last()).last_good,
            e.since(),
            now,
            stale_secs,
        ) {
            1nat
        } else {
            0nat
        }
    }
}

/// How many samples the windows of `ids` hold.
pub open spec fn buffered(ids: Seq<Seq<char>>, e: Engine) -> nat
    decreases ids.len(),
{
    if ids.len() == 0 {
        0
    } else {
        buffered(ids.drop_last(), e) + e.signal(ids.last()).batcher.buffer.len()
    }
}

/// A state after a sample that passed the publish filter, and the update to publish now, if there is one: with
/// no window the sample goes out at once, otherwise it waits in the window.
pub open spec fn enqueued(st: StateV, id: Seq<char>, sample: SampleV, now: Instant, batch_ms: u64) -> (
    StateV,
    Option<PublishV>,
) {
    if batch_ms == 0 {
        (st, Some(PublishV { signal_id: id, samples: seq![sample] }))
    } else {
        (StateV { batcher: st.batcher.with(sample, now), ..st }, None)
    }
}

/// The meaning of an optional update.
pub open spec fn publish_view(p: Option<Publish>) -> Option<PublishV> {
    match p {
        Some(v) => Some(v@),
        None => None,
    }
}

/// Hand a sample that passed the publish filter to the signal's window.
pub fn enqueue(
    st: &mut SignalState,
    id: &str,
    sample: Sample,
    now: Instant,
    batch_ms: u64,
) -> (r: Option<Publish>)
    ensures
        (final(st)@, publish_view(r)) == enqueued(old(st)@, id@, sample@, now, batch_ms),
{
    match st.batcher.add(sample, now, batch_ms) {
        Some(out) => Some(Publish { signal_id: id.to_owned(), samples: out }),
        None => None,
    }
}

/// The signals seen once `id` has been, too.
pub open spec fn seen(known: Seq<Seq<char>>, id: Seq<char>) -> Seq<Seq<char>> {
    if known.contains(id) {
        known
    } else {
        known.push(id)
    }
}

// ---- what the states keep ----

/// Without a window a sample goes out at once, alone and under its signal's id, and nothing of the state
/// changes. With one nothing goes out: the sample waits behind those that wait already.
pub proof fn a_sample_goes_out_at_once_or_waits(
    st: StateV,
    id: Seq<char>,
    sample: SampleV,
    now: Instant,
    batch_ms: u64,
)
    ensures
        batch_ms == 0 ==> enqueued(st, id, sample, now, batch_ms) == (
            st,
            Some(PublishV { signal_id: id, samples: seq![sample] }),
        ),
        batch_ms > 0 ==> enqueued(st, id, sample, now, batch_ms) == (
            StateV {
                batcher: BatcherV {
                    buffer: st.batcher.buffer.push(sample),
                    window_open: if st.batcher.window_open is None {
                        Some(now)
                    } else {
                        st.batcher.window_open
                    },
                },
                ..st
            },
            None::<PublishV>,
        ),
{
}

/// Putting a state back changes that signal and no other, and the signal is known from then on.
pub proof fn an_update_touches_one_signal(
    before: Engine,
    after: Engine,
    id: Seq<char>,
    st: StateV,
    other: Seq<char>,
)
    requires
        after.is_update_of(before, id, st),
    ensures
        after.wf(),
        after.signal(id) == st,
        other != id ==> after.signal(other) == before.signal(other),
        after.since() == before.since(),
        after.known() == before.known() || after.known() == before.known().push(id),
        after.known().contains(id),
{
    if !before.known().contains(id) {
        assert(before.known().push(id)[before.known().len() as int] == id);
    }
}

/// A publish that is known to have succeeded or failed touches its own signal and no other.
pub proof fn a_settled_publish_touches_one_signal(
    before: Engine,
    after: Engine,
    id: Seq<char>,
    published: bool,
    other: Seq<char>,
)
    requires
        after.settled_from(before, id, published),
    ensures
        after.wf(),
        after.signal(id).pending is None,
        published && before.signal(id).pending is Some ==> after.signal(id).baseline == before.signal(
            id,
        ).pending,
        !(published && before.signal(id).pending is Some) ==> after.signal(id).baseline
            == before.signal(id).baseline,
        after.signal(id).batcher == before.signal(id).batcher,
        after.signal(id).last_good == before.signal(id).last_good,
        after.signal(id).last_eligible == before.signal(id).last_eligible,
        other != id ==> after.signal(other) == before.signal(other),
        after.known() == before.known(),
        after.since() == before.since(),
{
}

/// A flush hands out the window of every signal that has held a sample for as long as the window is long,
/// whole, once, and in the order the signals were first seen, and no other; a window that was handed out
/// is closed and empty, and nothing else of any signal changes. The places of those signals are
/// returned.
pub proof fn a_flush_hands_out_the_windows_that_are_due(
    before: Engine,
    after: Engine,
    now: Instant,
    batch_ms: u64,
    out: Seq<PublishV>,
) -> (places: Seq<int>)
    requires
        after.drained_from(before, now, batch_ms),
        out == flushes(before.known(), before, now, batch_ms),
    ensures
        out.len() == places.len(),
        forall|i: int, j: int| 0 <= i < j < places.len() ==> places[i] < places[j],
        forall|p: int| #[trigger]
            places.contains(p) <==> 0 <= p < before.known().len() && ({
                let w = before.signal(before.known()[p]).batcher;
                &&& w.buffer.len() > 0
                &&& w.window_open is Some
                &&& now.after(w.window_open->0) >= batch_ms * 1_000_000
            }),
        forall|i: int|
            0 <= i < places.len() ==> (#[trigger] out[i]) == (PublishV {
                signal_id: before.known()[places[i]],
                samples: before.signal(before.known()[places[i]]).batcher.buffer,
            }),
        forall|k: Seq<char>|
            ({
                let w = before.signal(k).batcher;
                &&& w.buffer.len() > 0
                &&& w.window_open is Some
                &&& now.after(w.window_open->0) >= batch_ms * 1_000_000
            }) ==> (#[trigger] after.signal(k)) == (StateV {
                batcher: BatcherV { buffer: Seq::empty(), window_open: None },
                ..before.signal(k)
            }),
        forall|k: Seq<char>|
            !({
                let w = before.signal(k).batcher;
                &&& w.buffer.len() > 0
                &&& w.window_open is Some
                &&& now.after(w.window_open->0) >= batch_ms * 1_000_000
            }) ==> (#[trigger] after.signal(k)) == before.signal(k),
        after.known() == before.known(),
        after.since() == before.since(),
        after.wf(),
{
    lemma_flushes(before.known(), before, now, batch_ms)
}

proof fn lemma_flushes(ids: Seq<Seq<char>>, e: Engine, now: Instant, batch_ms: u64) -> (places: Seq<int>)
    ensures
        flushes(ids, e, now, batch_ms).len() == places.len(),
        forall|i: int, j: int| 0 <= i < j < places.len() ==> places[i] < places[j],
        forall|p: int| #[trigger]
            places.contains(p) <==> 0 <= p < ids.len() && e.signal(ids[p]).batcher.due(now, batch_ms),
        forall|i: int|
            0 <= i < places.len() ==> (#[trigger] flushes(ids, e, now, batch_ms)[i]) == (PublishV {
                signal_id: ids[places[i]],
                samples: e.signal(ids[places[i]]).batcher.buffer,
            }),
    decreases ids.len(),
{
    if ids.len() == 0 {
        Seq::empty()
    } else {
        let prev = lemma_flushes(ids.drop_last(), e, now, batch_ms);
        let n = ids.len() - 1;
        assert forall|i: int| 0 <= i < prev.len() implies 0 <= #[trigger] prev[i] < n by {
            assert(prev.contains(prev[i]));
        }
        if e.signal(ids.last()).batcher.due(now, batch_ms) {
            let next = prev.push(n);
            assert forall|p: int| #[trigger] next.contains(p) <==> prev.contains(p) || p == n by {
                lemma_int_push(prev, n, p);
            }
            next
        } else {
            prev
        }
    }
}

/// What a list of places holds once one more is on it.
pub proof fn lemma_int_push(s: Seq<int>, n: int, p: int)
    ensures
        s.push(n).contains(p) <==> s.contains(p) || p == n,
{
    if s.contains(p) {
        let i = choose|i: int| 0 <= i < s.len() && s[i] == p;
        assert(s.push(n)[i] == p);
    }
    assert(s.push(n)[s.len() as int] == n);
    if s.push(n).contains(p) && p != n {
        let i = choose|i: int| 0 <= i < s.push(n).len() && s.push(n)[i] == p;
        assert(s[i] == p);
    }
}

/// Dropping the open windows leaves no sample waiting anywhere, and nothing in flight where one waited;
/// what was published and when it was read stays.
pub proof fn dropped_windows_leave_nothing_waiting(before: Engine, after: Engine, k: Seq<char>)
    requires
        after.discarded_from(before),
    ensures
        after.wf(),
        after.signal(k).batcher.buffer.len() == 0,
        before.signal(k).batcher.buffer.len() > 0 ==> after.signal(k).pending is None
            && after.signal(k).batcher.window_open is None,
        before.signal(k).batcher.buffer.len() == 0 ==> after.signal(k) == before.signal(k),
        after.signal(k).baseline == before.signal(k).baseline,
        after.signal(k).last_good == before.signal(k).last_good,
        after.signal(k).last_eligible == before.signal(k).last_eligible,
        after.known() == before.known(),
        after.since() == before.since(),
{
}

/// Counting staleness from now on makes every signal as fresh as if it was read now, or as if the count
/// began now, and touches nothing a value is compared with.
pub proof fn a_fresh_count_starts_now(
    before: Engine,
    after: Engine,
    now: Instant,
    k: Seq<char>,
)
    requires
        after.refreshed_from(before, now),
    ensures
        after.wf(),
        after.since() == now,
        before.signal(k).last_good is Some ==> after.signal(k).last_good == Some(now),
        before.signal(k).last_good is None ==> after.signal(k).last_good is None,
        after.signal(k).baseline == before.signal(k).baseline,
        after.signal(k).pending == before.signal(k).pending,
        after.signal(k).batcher == before.signal(k).batcher,
        after.signal(k).last_eligible == before.signal(k).last_eligible,
        after.known() == before.known(),
{
}

/// The last reading of a signal in a snapshot is what it says of the signal.
pub proof fn a_snapshot_says_what_it_said_last(snapshot: Seq<Reading>, id: Seq<char>)
    ensures
        match snapshot_of(snapshot, id) {
            Some(v) => exists|i: int|
                {
                    &&& 0 <= i < snapshot.len()
                    &&& (#[trigger] snapshot[i]).signal_id@ == id
                    &&& snapshot[i].value@ == v
                    &&& forall|j: int|
                        i < j < snapshot.len() ==> (#[trigger] snapshot[j]).signal_id@ != id
                },
            None => forall|i: int|
                0 <= i < snapshot.len() ==> (#[trigger] snapshot[i]).signal_id@ != id,
        },
    decreases snapshot.len(),
{
    if snapshot.len() > 0 {
        let n = snapshot.len() - 1;
        if snapshot.last().signal_id@ == id {
            assert(snapshot[n].signal_id@ == id);
        } else {
            let init = snapshot.drop_last();
            a_snapshot_says_what_it_said_last(init, id);
            if let Some(v) = snapshot_of(init, id) {
                let i = choose|i: int|
                    {
                        &&& 0 <= i < init.len()
                        &&& (#[trigger] init[i]).signal_id@ == id
                        &&& init[i].value@ == v
                        &&& forall|j: int|
                            i < j < init.len() ==> (#[trigger] init[j]).signal_id@ != id
                    };
                assert(snapshot[i] == init[i]);
                assert forall|j: int| i < j < snapshot.len() implies (#[trigger] snapshot[j]).signal_id@
                    != id by {
                    if j < n {
                        assert(init[j] == snapshot[j]);
                    }
                }
            } else {
                assert forall|i: int| 0 <= i < snapshot.len() implies (#[trigger] snapshot[i]).signal_id@
                    != id by {
                    if i < n {
                        assert(init[i] == snapshot[i]);
                    }
                }
            }
        }
    }
}

/// After a rebase every signal of the snapshot is compared with what the snapshot says of it last, has
/// nothing in flight, and counts as read now; a signal the snapshot is silent on keeps its comparison
/// and, if it was ever read, counts as read now, too. Open windows stay as they are.
pub proof fn a_rebase_compares_with_the_snapshot(
    before: Engine,
    after: Engine,
    snapshot: Seq<Reading>,
    now: Instant,
    k: Seq<char>,
    at: int,
)
    requires
        after.rebased_from(before, snapshot, now),
    ensures
        after.wf(),
        after.since() == now,
        0 <= at < snapshot.len() && snapshot[at].signal_id@ == k && (forall|j: int|
            at < j < snapshot.len() ==> (#[trigger] snapshot[j]).signal_id@ != k) ==> {
            &&& after.signal(k).baseline == Some(snapshot[at].value@)
            &&& after.signal(k).pending is None
            &&& after.signal(k).last_good == Some(now)
            &&& after.known().contains(k)
        },
        (forall|j: int| 0 <= j < snapshot.len() ==> (#[trigger] snapshot[j]).signal_id@ != k) ==> {
            &&& after.signal(k).baseline == before.signal(k).baseline
            &&& after.signal(k).pending == before.signal(k).pending
            &&& after.signal(k).last_good == (if before.signal(k).last_good is Some {
                Some(now)
            } else {
                None
            })
            &&& after.known().contains(k) == before.known().contains(k)
        },
        after.signal(k).batcher == before.signal(k).batcher,
        after.signal(k).last_eligible == before.signal(k).last_eligible,
{
    a_snapshot_says_what_it_said_last(snapshot, k);
    if 0 <= at < snapshot.len() && snapshot[at].signal_id@ == k && (forall|j: int|
        at < j < snapshot.len() ==> (#[trigger] snapshot[j]).signal_id@ != k) {
        let v = snapshot_of(snapshot, k)->0;
        let i = choose|i: int|
            {
                &&& 0 <= i < snapshot.len()
                &&& (#[trigger] snapshot[i]).signal_id@ == k
                &&& snapshot[i].value@ == v
                &&& forall|j: int|
                    i < j < snapshot.len() ==> (#[trigger] snapshot[j]).signal_id@ != k
            };
        assert(snapshot[at].signal_id@ == k);
        assert(i == at);
        assert(after.known().contains(k));
    } else if forall|j: int| 0 <= j < snapshot.len() ==> (#[trigger] snapshot[j]).signal_id@ != k {
        assert(snapshot_of(snapshot, k) is None);
        assert(after.known().contains(k) == before.known().contains(k));
    }
}

/// The first window to close is one that is open, and none closes before it; a window closes that many
/// milliseconds after it opened.
pub proof fn the_first_window_to_close(e: Engine, batch_ms: u64, r: Option<u128>, k: Seq<char>)
    requires
        e.first_close(batch_ms, r),
    ensures
        e.signal(k).batcher.window_open matches Some(t) ==> (r matches Some(d) && d <= t.nanos + batch_ms
            * 1_000_000),
        r matches Some(d) ==> exists|o: Seq<char>|
            (#[trigger] e.signal(o)).batcher.window_open matches Some(t) && d == t.nanos + batch_ms
                * 1_000_000,
{
    assert(closes(e.signal(k), batch_ms) is Some <==> e.signal(k).batcher.window_open is Some);
    if let Some(d) = r {
        let o = choose|o: Seq<char>| #[trigger] closes(e.signal(o), batch_ms) == Some(d as int);
        assert(e.signal(o).batcher.window_open is Some);
    }
}

/// The stale signals that are counted are those among the ids that have had no good read for their whole
/// span, each as often as it is listed. Their places are returned.
pub proof fn every_stale_signal_is_counted(
    ids: Seq<Seq<char>>,
    e: Engine,
    stale_secs: u64,
    now: Instant,
) -> (places: Seq<int>)
    ensures
        stale_among(ids, e, stale_secs, now) == places.len(),
        forall|i: int, j: int| 0 <= i < j < places.len() ==> places[i] < places[j],
        forall|p: int| #[trigger]
            places.contains(p) <==> 0 <= p < ids.len() && (stale_secs == 0 || now.nanos >= (match e.signal(
                ids[p],
            ).last_good {
                Some(t) => t.nanos,
                None => e.since().nanos,
            }) + stale_secs * 1_000_000_000),
    decreases ids.len(),
{
    if ids.len() == 0 {
        Seq::empty()
    } else {
        let prev = every_stale_signal_is_counted(ids.drop_last(), e, stale_secs, now);
        let n = ids.len() - 1;
        assert forall|i: int| 0 <= i < prev.len() implies 0 <= #[trigger] prev[i] < n by {
            assert(prev.contains(prev[i]));
        }
        if stale(e.signal(ids.last()).last_good, e.since(), now, stale_secs) {
            let next = prev.push(n);
            assert forall|p: int| #[trigger] next.contains(p) <==> prev.contains(p) || p == n by {
                lemma_int_push(prev, n, p);
            }
            next
        } else {
            prev
        }
    }
}

/// How many samples wait: those of each signal, together; none where no signal has any.
pub proof fn waiting_samples_add_up(a: Seq<Seq<char>>, id: Seq<char>, e: Engine)
    ensures
        buffered(Seq::empty(), e) == 0,
        buffered(a.push(id), e) == buffered(a, e) + e.signal(id).batcher.buffer.len(),
{
    assert(a.push(id).drop_last() =~= a);
}

} // verus!
