//! The JSON values the adapter reads from configuration and publishes on the bus.

use vstd::prelude::*;

use crate::ieee::F64;
use crate::text::texts;

verus! {

/// A JSON number: an integer literal keeps its exact value, anything else is a finite binary64.
#[derive(Clone, Copy, Debug)]
pub enum Number {
    /// An integer that is zero or positive.
    Unsigned(u64),
    /// An integer; negative when it came from a document.
    Signed(i64),
    /// A number written with a fraction or an exponent.
    Float(F64),
}

/// A JSON value.
#[derive(Debug)]
pub enum Json {
    Null,
    Bool(bool),
    Number(Number),
    Text(String),
    Array(Vec<Json>),
    Object(Object),
}

/// One member of an object.
#[derive(Debug)]
pub struct Member {
    pub key: String,
    pub value: Json,
}

/// A JSON object: members under distinct keys.
#[derive(Debug)]
pub struct Object {
    members: Vec<Member>,
}

/// What a JSON value means: integers by value, floats by the number they stand for, arrays in
/// order, objects by what each key maps to.
pub enum JsonV {
    Null,
    Bool(bool),
    Int(int),
    Float(u64),
    Text(Seq<char>),
    Array(Seq<JsonV>),
    Object(Map<Seq<char>, JsonV>),
}

impl Number {
    pub open spec fn meaning(self) -> JsonV {
        match self {
            Number::Unsigned(v) => JsonV::Int(v as int),
            Number::Signed(v) => JsonV::Int(v as int),
            Number::Float(f) => JsonV::Float(f.canonical()),
        }
    }

    /// The exact integer, for an integer literal.
    pub open spec fn exact(self) -> Option<int> {
        match self {
            Number::Unsigned(v) => Some(v as int),
            Number::Signed(v) => Some(v as int),
            Number::Float(_) => None,
        }
    }

    /// The number as a binary64: an integer past `2^53` is rounded to the closest one.
    pub open spec fn float(self) -> F64 {
        match self {
            Number::Unsigned(v) => F64::nearest(v as nat),
            Number::Signed(v) => if v >= 0 {
                F64::nearest(v as nat)
            } else {
                F64 { bits: (0x8000_0000_0000_0000 + F64::nearest((-v) as nat).bits) as u64 }
            },
            Number::Float(f) => f,
        }
    }

    /// The number as a binary64.
    pub fn to_float(self) -> (r: F64)
        ensures
            r == self.float(),
            match self {
                Number::Unsigned(v) => r.counts(v),
                Number::Signed(v) => if v >= 0 {
                    r.counts(v as u64)
                } else {
                    &&& r.finite()
                    &&& r.negative()
                    &&& F64 { bits: (r.bits - 0x8000_0000_0000_0000) as u64 }.counts((-v) as u64)
                },
                Number::Float(f) => r == f,
            },
    {
        match self {
            Number::Unsigned(v) => F64::from_count(v),
            Number::Signed(v) => if v >= 0 {
                F64::from_count(v as u64)
            } else {
                let size: u64 = (-(v as i128)) as u64;
                let r = F64::from_count(size);
                F64 { bits: 0x8000_0000_0000_0000 + r.bits }
            },
            Number::Float(f) => f,
        }
    }

    /// Whether two numbers are the same number of the same sort.
    pub fn same(self, other: Number) -> (r: bool)
        ensures
            r == (self.meaning() == other.meaning()),
    {
        match (self, other) {
            (Number::Unsigned(a), Number::Unsigned(b)) => a == b,
            (Number::Signed(a), Number::Signed(b)) => a == b,
            (Number::Unsigned(a), Number::Signed(b)) => b >= 0 && a == b as u64,
            (Number::Signed(a), Number::Unsigned(b)) => a >= 0 && a as u64 == b,
            (Number::Float(a), Number::Float(b)) => a.same_number(b),
            _ => false,
        }
    }
}

impl View for Json {
    type V = JsonV;

    closed spec fn view(&self) -> JsonV {
        meaning(*self)
    }
}

impl View for Object {
    type V = Map<Seq<char>, JsonV>;

    closed spec fn view(&self) -> Map<Seq<char>, JsonV> {
        members_meaning(self.members@)
    }
}

spec fn meaning(j: Json) -> JsonV
    decreases j,
{
    match j {
        Json::Null => JsonV::Null,
        Json::Bool(b) => JsonV::Bool(b),
        Json::Number(n) => n.meaning(),
        Json::Text(s) => JsonV::Text(s@),
        Json::Array(v) => JsonV::Array(elements_meaning(v@)),
        Json::Object(o) => JsonV::Object(members_meaning(o.members@)),
    }
}

spec fn elements_meaning(s: Seq<Json>) -> Seq<JsonV>
    decreases s,
{
    if s.len() == 0 {
        Seq::empty()
    } else {
        elements_meaning(s.drop_last()).push(meaning(s.last()))
    }
}

spec fn members_meaning(s: Seq<Member>) -> Map<Seq<char>, JsonV>
    decreases s,
{
    if s.len() == 0 {
        Map::empty()
    } else {
        members_meaning(s.drop_last()).insert(s.last().key@, meaning(s.last().value))
    }
}

/// What the elements of an array mean, in order.
pub open spec fn values(s: Seq<Json>) -> Seq<JsonV> {
    Seq::new(s.len(), |i: int| s[i]@)
}

spec fn distinct_keys(s: Seq<Member>) -> bool {
    forall|i: int, j: int| 0 <= i < j < s.len() ==> s[i].key@ != s[j].key@
}

proof fn lemma_elements(s: Seq<Json>)
    ensures
        elements_meaning(s) == values(s),
    decreases s.len(),
{
    if s.len() > 0 {
        lemma_elements(s.drop_last());
    }
    assert(elements_meaning(s) =~= values(s));
}

proof fn lemma_members(s: Seq<Member>)
    requires
        distinct_keys(s),
    ensures
        forall|k: Seq<char>|
            members_meaning(s).dom().contains(k) <==> (exists|i: int|
                0 <= i < s.len() && #[trigger] s[i].key@ == k),
        forall|i: int|
            0 <= i < s.len() ==> members_meaning(s).dom().contains(#[trigger] s[i].key@)
                && members_meaning(s)[s[i].key@] == meaning(s[i].value),
        members_meaning(s).dom().finite(),
        members_meaning(s).dom().len() == s.len(),
    decreases s.len(),
{
    if s.len() > 0 {
        let t = s.drop_last();
        assert(forall|i: int| 0 <= i < t.len() ==> t[i] == s[i]);
        lemma_members(t);
        let m = members_meaning(s);
        let last = s.len() - 1;
        assert(!members_meaning(t).dom().contains(s.last().key@));
        assert forall|k: Seq<char>| m.dom().contains(k) implies (exists|i: int|
            0 <= i < s.len() && #[trigger] s[i].key@ == k) by {
            if k == s.last().key@ {
                assert(s[last].key@ == k);
            } else {
                let i = choose|i: int| 0 <= i < t.len() && #[trigger] t[i].key@ == k;
                assert(s[i].key@ == k);
            }
        }
        assert forall|i: int| 0 <= i < s.len() implies m.dom().contains(#[trigger] s[i].key@)
            && m[s[i].key@] == meaning(s[i].value) by {
            if i < last {
                assert(t[i] == s[i]);
                assert(s[i].key@ != s[last].key@);
            }
        }
        assert(m.dom() =~= members_meaning(t).dom().insert(s.last().key@));
    }
}

impl Object {
    #[verifier::type_invariant]
    spec fn well_formed(self) -> bool {
        distinct_keys(self.members@)
    }

    /// An object without members.
    pub fn new() -> (r: Object)
        ensures
            r@ == Map::<Seq<char>, JsonV>::empty(),
    {
        let members: Vec<Member> = Vec::new();
        Object { members }
    }

    fn find(&self, key: &str) -> (r: Option<usize>)
        ensures
            match r {
                Some(i) => i < self.members@.len() && self.members@[i as int].key@ == key@,
                None => forall|i: int| 0 <= i < self.members@.len() ==> self.members@[i].key@ != key@,
            },
    {
        let mut i: usize = 0;
        let wanted = key.to_owned();
        while i < self.members.len()
            invariant
                i <= self.members@.len(),
                wanted@ == key@,
                forall|j: int| 0 <= j < i ==> self.members@[j].key@ != key@,
            decreases self.members@.len() - i,
        {
            if self.members[i].key == wanted {
                return Some(i);
            }
            i = i + 1;
        }
        None
    }

    /// The value under `key`.
    pub fn get(&self, key: &str) -> (r: Option<&Json>)
        ensures
            match r {
                Some(v) => self@.dom().contains(key@) && v@ == self@[key@],
                None => !self@.dom().contains(key@),
            },
    {
        proof {
            use_type_invariant(self);
            lemma_members(self.members@);
        }
        match self.find(key) {
            Some(i) => Some(&self.members[i].value),
            None => None,
        }
    }

    /// Put `value` under `key`, in place of what was there.
    pub fn insert(&mut self, key: &str, value: Json)
        ensures
            final(self)@ == old(self)@.insert(key@, value@),
    {
        proof {
            use_type_invariant(&*self);
            lemma_members(self.members@);
        }
        let ghost before = self.members@;
        let at = self.find(key);
        let mut members: Vec<Member> = Vec::new();
        std::mem::swap(&mut members, &mut self.members);
        match at {
            Some(i) => {
                let member = Member { key: key.to_owned(), value };
                members.set(i, member);
                proof {
                    let after = members@;
                    assert(distinct_keys(after)) by {
                        assert forall|a: int, b: int| 0 <= a < b < after.len() implies after[a].key@
                            != after[b].key@ by {
                            assert(before[a].key@ != before[b].key@);
                        }
                    }
                    lemma_members(after);
                    let m = members_meaning(after);
                    let expect = members_meaning(before).insert(key@, meaning(value));
                    assert forall|k: Seq<char>| m.dom().contains(k) == expect.dom().contains(k) by {
                        if m.dom().contains(k) {
                            let j = choose|j: int| 0 <= j < after.len() && #[trigger] after[j].key@ == k;
                            assert(before[j].key@ == after[j].key@);
                        }
                        if expect.dom().contains(k) && k != key@ {
                            let j = choose|j: int| 0 <= j < before.len() && #[trigger] before[j].key@ == k;
                            assert(after[j].key@ == k);
                        }
                        assert(after[i as int].key@ == key@);
                    }
                    assert forall|k: Seq<char>| m.dom().contains(k) implies m[k] == expect[k] by {
                        let j = choose|j: int| 0 <= j < after.len() && #[trigger] after[j].key@ == k;
                        assert(before[j].key@ == after[j].key@);
                        if j == i {
                        } else {
                            assert(after[j].key@ != after[i as int].key@);
                            assert(after[j] == before[j]);
                        }
                    }
                    assert(m =~= expect);
                }
            },
            None => {
                members.push(Member { key: key.to_owned(), value });
                proof {
                    let after = members@;
                    assert(after.drop_last() =~= before);
                    assert(distinct_keys(after)) by {
                        assert forall|a: int, b: int| 0 <= a < b < after.len() implies after[a].key@
                            != after[b].key@ by {
                            assert(before[a].key@ != key@);
                            if b < before.len() {
                                assert(before[a].key@ != before[b].key@);
                            }
                        }
                    }
                }
            },
        }
        self.members = members;
    }

    /// Take the member under `key` away, if there is one.
    pub fn remove(&mut self, key: &str)
        ensures
            final(self)@ == old(self)@.remove(key@),
    {
        proof {
            use_type_invariant(&*self);
            lemma_members(self.members@);
        }
        let ghost before = self.members@;
        let at = self.find(key);
        let mut members: Vec<Member> = Vec::new();
        std::mem::swap(&mut members, &mut self.members);
        match at {
            Some(i) => {
                let dropped = members.remove(i);
                proof {
                    let after = members@;
                    let at = i as int;
                    assert(after =~= before.remove(at));
                    assert forall|a: int| 0 <= a < after.len() implies after[a] == before[if a < at {
                        a
                    } else {
                        a + 1
                    }] by {}
                    assert(distinct_keys(after)) by {
                        assert forall|a: int, b: int| 0 <= a < b < after.len() implies after[a].key@
                            != after[b].key@ by {
                            let x = if a < at { a } else { a + 1 };
                            let y = if b < at { b } else { b + 1 };
                            assert(before[x].key@ != before[y].key@);
                        }
                    }
                    lemma_members(after);
                    let m = members_meaning(after);
                    let expect = members_meaning(before).remove(key@);
                    assert forall|k: Seq<char>| m.dom().contains(k) == expect.dom().contains(k) by {
                        if m.dom().contains(k) {
                            let j = choose|j: int| 0 <= j < after.len() && #[trigger] after[j].key@ == k;
                            let x = if j < at { j } else { j + 1 };
                            assert(before[x].key@ == k);
                            assert(before[at].key@ != before[x].key@);
                        }
                        if expect.dom().contains(k) {
                            let x = choose|x: int| 0 <= x < before.len() && #[trigger] before[x].key@ == k;
                            let j = if x < at { x } else { x - 1 };
                            assert(after[j].key@ == k);
                        }
                    }
                    assert forall|k: Seq<char>| m.dom().contains(k) implies m[k] == expect[k] by {
                        let j = choose|j: int| 0 <= j < after.len() && #[trigger] after[j].key@ == k;
                        let x = if j < at { j } else { j + 1 };
                        assert(before[x].key@ == k);
                        assert(after[j] == before[x]);
                    }
                    assert(m =~= expect);
                }
            },
            None => {
                proof {
                    assert forall|k: Seq<char>| members_meaning(before).dom().contains(k) implies k
                        != key@ by {
                        let j = choose|j: int| 0 <= j < before.len() && #[trigger] before[j].key@ == k;
                    }
                    assert(members_meaning(before).remove(key@) =~= members_meaning(before));
                }
            },
        }
        self.members = members;
    }

    /// How many members there are.
    pub fn len(&self) -> (n: usize)
        ensures
            self@.dom().finite(),
            n == self@.dom().len(),
    {
        proof {
            use_type_invariant(self);
            lemma_members(self.members@);
        }
        self.members.len()
    }

    /// The keys, in the order the members were put in.
    pub fn keys(&self) -> (r: Vec<String>)
        ensures
            r@.len() == self@.dom().len(),
            forall|i: int| 0 <= i < r@.len() ==> self@.dom().contains(#[trigger] r@[i]@),
            forall|i: int, j: int| 0 <= i < j < r@.len() ==> r@[i]@ != r@[j]@,
    {
        proof {
            use_type_invariant(self);
            lemma_members(self.members@);
        }
        let mut r: Vec<String> = Vec::new();
        let mut i: usize = 0;
        while i < self.members.len()
            invariant
                i <= self.members@.len(),
                r@.len() == i,
                forall|j: int| 0 <= j < i ==> #[trigger] r@[j]@ == self.members@[j].key@,
            decreases self.members@.len() - i,
        {
            r.push(self.members[i].key.clone());
            i = i + 1;
        }
        r
    }

    /// A copy.
    pub fn copy(&self) -> (r: Object)
        ensures
            r@ == self@,
        decreases self,
    {
        proof {
            use_type_invariant(self);
        }
        let mut members: Vec<Member> = Vec::new();
        let mut i: usize = 0;
        while i < self.members.len()
            invariant
                i <= self.members@.len(),
                members@.len() == i,
                distinct_keys(self.members@),
                forall|j: int|
                    0 <= j < i ==> #[trigger] members@[j].key@ == self.members@[j].key@
                        && members@[j].value@ == self.members@[j].value@,
            decreases self.members@.len() - i,
        {
            assert(decreases_to!(self.members@ => self.members@[i as int]));
            let member = Member {
                key: self.members[i].key.clone(),
                value: self.members[i].value.copy(),
            };
            members.push(member);
            i = i + 1;
        }
        proof {
            lemma_same_members(members@, self.members@);
            assert(distinct_keys(members@)) by {
                assert forall|a: int, b: int| 0 <= a < b < members@.len() implies members@[a].key@
                    != members@[b].key@ by {
                    assert(self.members@[a].key@ != self.members@[b].key@);
                }
            }
        }
        Object { members }
    }

    /// Whether two objects map the same keys to equal values.
    pub fn same(&self, other: &Object) -> (r: bool)
        ensures
            r == (self@ == other@),
        decreases self,
    {
        proof {
            use_type_invariant(self);
            use_type_invariant(other);
            lemma_members(self.members@);
            lemma_members(other.members@);
        }
        if self.members.len() != other.members.len() {
            return false;
        }
        let mut i: usize = 0;
        while i < self.members.len()
            invariant
                i <= self.members@.len(),
                self@ == members_meaning(self.members@),
                other@ == members_meaning(other.members@),
                forall|k: Seq<char>|
                    other@.dom().contains(k) <==> (exists|j: int|
                        0 <= j < other.members@.len() && #[trigger] other.members@[j].key@ == k),
                forall|j: int|
                    0 <= j < self.members@.len() ==> self@.dom().contains(
                        #[trigger] self.members@[j].key@,
                    ) && self@[self.members@[j].key@] == self.members@[j].value@,
                forall|j: int|
                    0 <= j < other.members@.len() ==> other@.dom().contains(
                        #[trigger] other.members@[j].key@,
                    ) && other@[other.members@[j].key@] == other.members@[j].value@,
                forall|j: int|
                    0 <= j < i ==> other@.dom().contains(#[trigger] self.members@[j].key@)
                        && other@[self.members@[j].key@] == self.members@[j].value@,
            decreases self.members@.len() - i,
        {
            assert(decreases_to!(self.members@ => self.members@[i as int]));
            match other.find(self.members[i].key.as_str()) {
                None => {
                    assert(self@.dom().contains(self.members@[i as int].key@));
                    assert(!other@.dom().contains(self.members@[i as int].key@));
                    return false;
                },
                Some(at) => {
                    if !self.members[i].value.same(&other.members[at].value) {
                        assert(self@[self.members@[i as int].key@] != other@[other.members@[at as int].key@]);
                        return false;
                    }
                },
            }
            i = i + 1;
        }
        proof {
            assert(self@.dom().subset_of(other@.dom())) by {
                assert forall|k: Seq<char>| self@.dom().contains(k) implies other@.dom().contains(k) by {
                    let j = choose|j: int| 0 <= j < self.members@.len() && #[trigger] self.members@[j].key@ == k;
                }
            }
            vstd::set_lib::lemma_subset_equality(self@.dom(), other@.dom());
            assert forall|k: Seq<char>| self@.dom().contains(k) implies self@[k] == other@[k] by {
                let j = choose|j: int| 0 <= j < self.members@.len() && #[trigger] self.members@[j].key@ == k;
            }
            assert(self@ =~= other@);
        }
        true
    }
}

proof fn lemma_same_members(a: Seq<Member>, b: Seq<Member>)
    requires
        a.len() == b.len(),
        forall|j: int|
            0 <= j < a.len() ==> #[trigger] a[j].key@ == b[j].key@ && a[j].value@ == b[j].value@,
    ensures
        members_meaning(a) == members_meaning(b),
    decreases a.len(),
{
    if a.len() > 0 {
        let n = a.len() - 1;
        assert(a[n].key@ == b[n].key@);
        assert forall|j: int| 0 <= j < n implies #[trigger] a.drop_last()[j].key@ == b.drop_last()[j].key@
            && a.drop_last()[j].value@ == b.drop_last()[j].value@ by {
            assert(a[j].key@ == b[j].key@);
        }
        lemma_same_members(a.drop_last(), b.drop_last());
    }
}

/// What a value means, case by case.
pub proof fn lemma_meaning(j: Json)
    ensures
        match j {
            Json::Null => j@ == JsonV::Null,
            Json::Bool(b) => j@ == JsonV::Bool(b),
            Json::Number(n) => j@ == n.meaning(),
            Json::Text(s) => j@ == JsonV::Text(s@),
            Json::Array(v) => j@ == JsonV::Array(values(v@)),
            Json::Object(o) => j@ == JsonV::Object(o@),
        },
{
    if let Json::Array(v) = j {
        lemma_elements(v@);
    }
}

impl Json {
    /// A copy.
    pub fn copy(&self) -> (r: Json)
        ensures
            r@ == self@,
        decreases self,
    {
        match self {
            Json::Null => Json::Null,
            Json::Bool(b) => Json::Bool(*b),
            Json::Number(n) => Json::Number(*n),
            Json::Text(s) => Json::Text(s.clone()),
            Json::Array(v) => {
                let mut out: Vec<Json> = Vec::new();
                let mut i: usize = 0;
                while i < v.len()
                    invariant
                        i <= v@.len(),
                        out@.len() == i,
                        *self == Json::Array(*v),
                        forall|j: int| 0 <= j < i ==> #[trigger] out@[j]@ == v@[j]@,
                    decreases v@.len() - i,
                {
                    assert(decreases_to!(self => self->Array_0));
                    assert(decreases_to!(v@ => v@[i as int]));
                    let item = v[i].copy();
                    out.push(item);
                    i = i + 1;
                }
                proof {
                    lemma_elements(out@);
                    lemma_elements(v@);
                    assert(values(out@) =~= values(v@));
                }
                Json::Array(out)
            },
            Json::Object(o) => Json::Object(o.copy()),
        }
    }

    /// Whether two values are equal: arrays in order, objects whatever the order of their members.
    pub fn same(&self, other: &Json) -> (r: bool)
        ensures
            r == (self@ == other@),
        decreases self,
    {
        match (self, other) {
            (Json::Null, Json::Null) => true,
            (Json::Bool(a), Json::Bool(b)) => *a == *b,
            (Json::Number(a), Json::Number(b)) => a.same(*b),
            (Json::Text(a), Json::Text(b)) => *a == *b,
            (Json::Array(a), Json::Array(b)) => {
                proof {
                    lemma_elements(a@);
                    lemma_elements(b@);
                }
                if a.len() != b.len() {
                    assert(values(a@).len() != values(b@).len());
                    return false;
                }
                let mut i: usize = 0;
                while i < a.len()
                    invariant
                        i <= a@.len(),
                        a@.len() == b@.len(),
                        *self == Json::Array(*a),
                        self@ == JsonV::Array(values(a@)),
                        other@ == JsonV::Array(values(b@)),
                        forall|j: int| 0 <= j < i ==> #[trigger] a@[j]@ == b@[j]@,
                    decreases a@.len() - i,
                {
                    assert(decreases_to!(a@ => a@[i as int]));
                    if !a[i].same(&b[i]) {
                        assert(values(a@)[i as int] != values(b@)[i as int]);
                        return false;
                    }
                    i = i + 1;
                }
                assert(values(a@) =~= values(b@));
                true
            },
            (Json::Object(a), Json::Object(b)) => a.same(b),
            _ => false,
        }
    }

    /// The member under `key`, when this is an object that has one.
    pub fn get(&self, key: &str) -> (r: Option<&Json>)
        ensures
            match r {
                Some(v) => member(self@, key@) == Some(v@),
                None => member(self@, key@) is None,
            },
    {
        match self {
            Json::Object(o) => o.get(key),
            _ => None,
        }
    }
}

/// What `key` maps to, for an object that has it.
pub open spec fn member(v: JsonV, key: Seq<char>) -> Option<JsonV> {
    match v {
        JsonV::Object(m) => if m.dom().contains(key) {
            Some(m[key])
        } else {
            None
        },
        _ => None,
    }
}

impl Json {
    /// `true` or `false`.
    pub fn of_bool(b: bool) -> (j: Json)
        ensures
            j@ == JsonV::Bool(b),
    {
        let j = Json::Bool(b);
        proof {
            lemma_meaning(j);
        }
        j
    }

    /// An unsigned integer.
    pub fn of_u64(n: u64) -> (j: Json)
        ensures
            j@ == JsonV::Int(n as int),
    {
        let j = Json::Number(Number::Unsigned(n));
        proof {
            lemma_meaning(j);
        }
        j
    }

    /// A signed integer.
    pub fn of_i64(n: i64) -> (j: Json)
        ensures
            j@ == JsonV::Int(n as int),
    {
        let j = if n >= 0 {
            Json::Number(Number::Unsigned(n as u64))
        } else {
            Json::Number(Number::Signed(n))
        };
        proof {
            lemma_meaning(j);
        }
        j
    }

    /// A text.
    pub fn of_text(s: &str) -> (j: Json)
        ensures
            j@ == JsonV::Text(s@),
    {
        let j = Json::Text(s.to_owned());
        proof {
            lemma_meaning(j);
        }
        j
    }

    /// An object.
    pub fn of_object(o: Object) -> (j: Json)
        ensures
            j@ == JsonV::Object(o@),
    {
        let j = Json::Object(o);
        proof {
            lemma_meaning(j);
        }
        j
    }

    /// An array.
    pub fn of_array(items: Vec<Json>) -> (j: Json)
        ensures
            j@ == JsonV::Array(values(items@)),
    {
        let j = Json::Array(items);
        proof {
            lemma_meaning(j);
        }
        j
    }

    /// An array of texts.
    pub fn of_texts(list: &Vec<String>) -> (j: Json)
        ensures
            j@ == text_list(texts(list@)),
    {
        let mut out: Vec<Json> = Vec::new();
        let mut i: usize = 0;
        while i < list.len()
            invariant
                i <= list@.len(),
                out@.len() == i,
                forall|k: int| 0 <= k < i ==> #[trigger] out@[k]@ == JsonV::Text(list@[k]@),
            decreases list@.len() - i,
        {
            let item = Json::of_text(list[i].as_str());
            out.push(item);
            i = i + 1;
        }
        let ghost items = values(out@);
        assert(items =~= Seq::new(texts(list@).len(), |k: int| JsonV::Text(texts(list@)[k])));
        Json::of_array(out)
    }
}

/// Texts, as an array.
pub open spec fn text_list(s: Seq<Seq<char>>) -> JsonV {
    JsonV::Array(Seq::new(s.len(), |i: int| JsonV::Text(s[i])))
}

/// An integer means the same whichever way it was read, and never the same as a number with a fraction; two
/// numbers with a fraction mean the same when they are the same pattern, or both a zero.
pub proof fn a_number_means_what_it_is(a: u64, b: i64, f: F64, g: F64)
    ensures
        Number::Unsigned(a).exact() == Some(a as int),
        Number::Signed(b).exact() == Some(b as int),
        Number::Float(f).exact() is None,
        Number::Unsigned(a).meaning() == Number::Signed(b).meaning() <==> a == b,
        Number::Unsigned(a).meaning() != Number::Float(f).meaning(),
        Number::Signed(b).meaning() != Number::Float(f).meaning(),
        Number::Float(f).meaning() == Number::Float(g).meaning() <==> f.bits == g.bits || ((f.bits == 0
            || f.bits == 0x8000_0000_0000_0000) && (g.bits == 0 || g.bits == 0x8000_0000_0000_0000)),
        Number::Float(f).float() == f,
{
}

/// A member is found in an object that has it, under its own key, and in nothing else.
pub proof fn a_member_is_found_under_its_key(v: JsonV, key: Seq<char>)
    ensures
        member(v, key) is Some <==> v is Object && v->Object_0.dom().contains(key),
        member(v, key) matches Some(x) ==> x == v->Object_0[key],
{
}

/// An array means its elements one for one, and a list of texts those texts, in order.
pub proof fn an_array_means_its_elements(s: Seq<Json>, t: Seq<Seq<char>>, i: int)
    ensures
        values(s).len() == s.len(),
        0 <= i < s.len() ==> values(s)[i] == s[i]@,
        text_list(t) matches JsonV::Array(l) && l.len() == t.len() && (0 <= i < t.len() ==> l[i]
            == JsonV::Text(t[i])),
{
}

} // verus!
