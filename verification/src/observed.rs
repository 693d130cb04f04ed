//! What the device declared each tag to be, as its replies came in.

use vstd::prelude::*;

use crate::device::Reading;

verus! {

/// One tag and the type its last reply declared.
#[derive(Clone, Debug)]
pub struct ObservedType {
    pub signal_id: String,
    pub declared: String,
}

/// The declared types of one instance.
#[derive(Clone, Debug)]
pub struct ObservedTypes {
    pub entries: Vec<ObservedType>,
}

/// What the first `n` entries say of a tag.
pub open spec fn known(entries: Seq<ObservedType>, n: nat, id: Seq<char>) -> Option<Seq<char>>
    decreases n,
{
    if n == 0 {
        None
    } else if entries[n - 1].signal_id@ == id {
        Some(entries[n - 1].declared@)
    } else {
        known(entries, (n - 1) as nat, id)
    }
}

/// What the first `n` readings declare of a tag: the last one of it that declares anything.
pub open spec fn declared(readings: Seq<Reading>, n: nat, id: Seq<char>) -> Option<Seq<char>>
    decreases n,
{
    if n == 0 {
        None
    } else {
        match readings[n - 1].observed_type {
            Some(t) => if readings[n - 1].signal_id@ == id {
                Some(t@)
            } else {
                declared(readings, (n - 1) as nat, id)
            },
            None => declared(readings, (n - 1) as nat, id),
        }
    }
}

/// A later declaration replaces an earlier one; a tag that none declares keeps what it had.
pub open spec fn corrected(before: Option<Seq<char>>, now: Option<Seq<char>>) -> Option<Seq<char>> {
    match now {
        Some(t) => Some(t),
        None => before,
    }
}

proof fn lemma_same_prefix(a: Seq<ObservedType>, b: Seq<ObservedType>, n: nat, id: Seq<char>)
    requires
        n <= a.len(),
        n <= b.len(),
        forall|i: int| 0 <= i < n ==> #[trigger] a[i] == b[i],
    ensures
        known(a, n, id) == known(b, n, id),
    decreases n,
{
    if n > 0 {
        lemma_same_prefix(a, b, (n - 1) as nat, id);
    }
}

proof fn lemma_replaced(
    entries: Seq<ObservedType>,
    k: int,
    e: ObservedType,
    n: nat,
    id: Seq<char>,
)
    requires
        distinct(entries),
        0 <= k < entries.len(),
        n <= entries.len(),
        e.signal_id@ == entries[k].signal_id@,
    ensures
        known(entries.update(k, e), n, id) == (if id == e.signal_id@ && k < n {
            Some(e.declared@)
        } else {
            known(entries, n, id)
        }),
    decreases n,
{
    if n > 0 {
        lemma_replaced(entries, k, e, (n - 1) as nat, id);
        if n - 1 > k {
            assert(entries[k].signal_id@ != entries[n - 1].signal_id@);
        }
    }
}

/// No tag occurs twice.
pub open spec fn distinct(entries: Seq<ObservedType>) -> bool {
    forall|i: int, j: int|
        0 <= i < j < entries.len() ==> (#[trigger] entries[i]).signal_id@ != (
        #[trigger] entries[j]).signal_id@
}

impl ObservedTypes {
    pub open spec fn wf(self) -> bool {
        distinct(self.entries@)
    }

    /// What is known of a tag.
    pub open spec fn of(self, id: Seq<char>) -> Option<Seq<char>> {
        known(self.entries@, self.entries@.len(), id)
    }

    /// Nothing is known before the first reply.
    pub fn new() -> (r: ObservedTypes)
        ensures
            r.wf(),
            forall|id: Seq<char>| #[trigger] r.of(id) is None,
    {
        ObservedTypes { entries: Vec::new() }
    }

    fn put(&mut self, signal_id: &String, t: &String)
        requires
            old(self).wf(),
        ensures
            final(self).wf(),
            forall|id: Seq<char>| #[trigger]
                final(self).of(id) == (if id == signal_id@ {
                    Some(t@)
                } else {
                    old(self).of(id)
                }),
    {
        let e = ObservedType { signal_id: signal_id.clone(), declared: t.clone() };
        let ghost before = self.entries@;
        let mut i: usize = 0;
        while i < self.entries.len()
            invariant
                i <= self.entries@.len(),
                self.entries@ == before,
                before == old(self).entries@,
                distinct(before),
                e.signal_id@ == signal_id@,
                e.declared@ == t@,
                forall|j: int|
                    0 <= j < i ==> (#[trigger] self.entries@[j]).signal_id@ != signal_id@,
            decreases self.entries@.len() - i,
        {
            if self.entries[i].signal_id == *signal_id {
                let ghost written = e;
                self.entries.set(i, e);
                proof {
                    assert(self.entries@ =~= before.update(i as int, written));
                    assert forall|a: int, b: int| 0 <= a < b < self.entries@.len() implies (
                    #[trigger] self.entries@[a]).signal_id@ != (
                    #[trigger] self.entries@[b]).signal_id@ by {
                        assert(before[a].signal_id@ != before[b].signal_id@);
                    }
                    assert forall|id: Seq<char>| #[trigger] self.of(id) == (if id == signal_id@ {
                        Some(t@)
                    } else {
                        old(self).of(id)
                    }) by {
                        lemma_replaced(before, i as int, written, before.len(), id);
                    }
                }
                return;
            }
            i = i + 1;
        }
        let ghost written = e;
        self.entries.push(e);
        proof {
            assert(self.entries@ =~= before.push(written));
            assert forall|a: int, b: int| 0 <= a < b < self.entries@.len() implies (
            #[trigger] self.entries@[a]).signal_id@ != (
            #[trigger] self.entries@[b]).signal_id@ by {
                if b < before.len() {
                    assert(before[a].signal_id@ != before[b].signal_id@);
                }
            }
            assert forall|id: Seq<char>| #[trigger] self.of(id) == (if id == signal_id@ {
                Some(t@)
            } else {
                old(self).of(id)
            }) by {
                lemma_same_prefix(before, self.entries@, before.len(), id);
            }
        }
    }

    /// What is known once the readings of a reply were taken over.
    pub open spec fn recorded_from(self, before: ObservedTypes, readings: Seq<Reading>) -> bool {
        &&& self.wf()
        &&& forall|id: Seq<char>| #[trigger]
            self.of(id) == corrected(before.of(id), declared(readings, readings.len(), id))
    }

    /// Take over what the readings of a reply declare. A reading without a declaration leaves what is
    /// known of its tag.
    pub fn record_observed(&mut self, readings: &Vec<Reading>)
        requires
            old(self).wf(),
        ensures
            final(self).recorded_from(*old(self), readings@),
    {
        let mut i: usize = 0;
        while i < readings.len()
            invariant
                i <= readings@.len(),
                self.wf(),
                forall|id: Seq<char>| #[trigger]
                    self.of(id) == corrected(old(self).of(id), declared(readings@, i as nat, id)),
            decreases readings@.len() - i,
        {
            match &readings[i].observed_type {
                Some(t) => {
                    self.put(&readings[i].signal_id, t);
                },
                None => {},
            }
            i = i + 1;
        }
    }

    /// The type a tag was last declared to be.
    pub fn observed_type(&self, signal_id: &str) -> (r: Option<&String>)
        requires
            self.wf(),
        ensures
            match r {
                Some(t) => self.of(signal_id@) == Some(t@),
                None => self.of(signal_id@) is None,
            },
    {
        let wanted = signal_id.to_owned();
        let mut i: usize = self.entries.len();
        while i > 0
            invariant
                i <= self.entries@.len(),
                wanted@ == signal_id@,
                self.of(signal_id@) == known(self.entries@, i as nat, signal_id@),
            decreases i,
        {
            if self.entries[i - 1].signal_id == wanted {
                return Some(&self.entries[i - 1].declared);
            }
            i = i - 1;
        }
        None
    }
}

/// A tag that the replies stop declaring keeps what it was last declared to be, and one that is declared
/// anew is corrected by its next reply.
pub proof fn the_last_declaration_stands(
    before: ObservedTypes,
    after: ObservedTypes,
    readings: Seq<Reading>,
    id: Seq<char>,
)
    requires
        after.of(id) == corrected(before.of(id), declared(readings, readings.len(), id)),
    ensures
        (forall|i: int|
            0 <= i < readings.len() && readings[i].observed_type is Some ==> (
            #[trigger] readings[i]).signal_id@ != id) ==> after.of(id) == before.of(id),
        readings.len() > 0 && readings.last().signal_id@ == id && readings.last().observed_type is Some
            ==> after.of(id) == Some(readings.last().observed_type->0@),
{
    if forall|i: int|
        0 <= i < readings.len() && readings[i].observed_type is Some ==> (
        #[trigger] readings[i]).signal_id@ != id {
        lemma_undeclared(readings, readings.len(), id);
    }
}

proof fn lemma_undeclared(readings: Seq<Reading>, n: nat, id: Seq<char>)
    requires
        n <= readings.len(),
        forall|i: int|
            0 <= i < n && readings[i].observed_type is Some ==> (
            #[trigger] readings[i]).signal_id@ != id,
    ensures
        declared(readings, n, id) is None,
    decreases n,
{
    if n > 0 {
        lemma_undeclared(readings, (n - 1) as nat, id);
    }
}

/// What is known of a tag is what its one entry says; nothing is known of a tag without one.
pub proof fn an_entry_says_what_is_known(t: ObservedTypes, id: Seq<char>)
    requires
        t.wf(),
    ensures
        match t.of(id) {
            Some(d) => exists|i: int|
                0 <= i < t.entries@.len() && (#[trigger] t.entries@[i]).signal_id@ == id
                    && t.entries@[i].declared@ == d,
            None => forall|i: int|
                0 <= i < t.entries@.len() ==> (#[trigger] t.entries@[i]).signal_id@ != id,
        },
{
    let _ = lemma_known(t.entries@, t.entries@.len(), id);
}

proof fn lemma_known(entries: Seq<ObservedType>, n: nat, id: Seq<char>) -> (at: int)
    requires
        n <= entries.len(),
    ensures
        match known(entries, n, id) {
            Some(d) => 0 <= at < n && entries[at].signal_id@ == id && entries[at].declared@ == d,
            None => forall|i: int| 0 <= i < n ==> (#[trigger] entries[i]).signal_id@ != id,
        },
    decreases n,
{
    if n == 0 {
        0
    } else if entries[n - 1].signal_id@ == id {
        n - 1
    } else {
        lemma_known(entries, (n - 1) as nat, id)
    }
}

/// A reply that declares a tag decides what is known of it, and of several declarations of one reply the
/// last; a reply that does not leaves what was known, whatever it says of other tags.
pub proof fn a_reply_decides_what_it_declares(
    before: ObservedTypes,
    after: ObservedTypes,
    readings: Seq<Reading>,
    id: Seq<char>,
    at: int,
)
    requires
        after.recorded_from(before, readings),
        0 <= at < readings.len(),
        readings[at].signal_id@ == id,
        readings[at].observed_type is Some,
        forall|i: int|
            at < i < readings.len() && readings[i].observed_type is Some ==> (
            #[trigger] readings[i]).signal_id@ != id,
    ensures
        after.of(id) == Some(readings[at].observed_type->0@),
{
    lemma_declared(readings, readings.len(), id, at);
}

proof fn lemma_declared(readings: Seq<Reading>, n: nat, id: Seq<char>, at: int)
    requires
        0 <= at < n <= readings.len(),
        readings[at].signal_id@ == id,
        readings[at].observed_type is Some,
        forall|i: int|
            at < i < n && readings[i].observed_type is Some ==> (
            #[trigger] readings[i]).signal_id@ != id,
    ensures
        declared(readings, n, id) == Some(readings[at].observed_type->0@),
    decreases n,
{
    if at < n - 1 {
        lemma_declared(readings, (n - 1) as nat, id, at);
    }
}

} // verus!
