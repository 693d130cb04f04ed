//! Rows kept in the order of their keys.
//!
//! A key is a pair of texts, compared text by text; texts are compared character by character, by code
//! point.

use vstd::prelude::*;

verus! {

/// Whether the text `a` comes before the text `b`.
pub open spec fn text_before(a: Seq<char>, b: Seq<char>) -> bool
    decreases a.len(),
{
    if b.len() == 0 {
        false
    } else if a.len() == 0 {
        true
    } else if a[0] != b[0] {
        a[0] < b[0]
    } else {
        text_before(a.skip(1), b.skip(1))
    }
}

/// Whether the key `a` comes before the key `b`.
pub open spec fn key_before(a: (Seq<char>, Seq<char>), b: (Seq<char>, Seq<char>)) -> bool {
    text_before(a.0, b.0) || (a.0 == b.0 && text_before(a.1, b.1))
}

/// The keys are in order, none of them twice.
pub open spec fn ascending(keys: Seq<(Seq<char>, Seq<char>)>) -> bool {
    forall|i: int, j: int|
        0 <= i < j < keys.len() ==> key_before(#[trigger] keys[i], #[trigger] keys[j])
}

/// The place a key belongs at: behind the leading keys that come before it.
pub open spec fn key_place(keys: Seq<(Seq<char>, Seq<char>)>, key: (Seq<char>, Seq<char>)) -> nat
    decreases keys.len(),
{
    if keys.len() == 0 {
        0
    } else {
        let n = key_place(keys.drop_last(), key);
        if n == keys.len() - 1 && key_before(keys.last(), key) {
            keys.len()
        } else {
            n
        }
    }
}

/// The keys with `key` among them, at the place it belongs at.
pub open spec fn with_key(
    keys: Seq<(Seq<char>, Seq<char>)>,
    key: (Seq<char>, Seq<char>),
) -> Seq<(Seq<char>, Seq<char>)> {
    if keys.contains(key) {
        keys
    } else {
        keys.insert(key_place(keys, key) as int, key)
    }
}

proof fn lemma_text_total(a: Seq<char>, b: Seq<char>)
    ensures
        a != b ==> text_before(a, b) || text_before(b, a),
        !(text_before(a, b) && text_before(b, a)),
        !text_before(a, a),
    decreases a.len(),
{
    if a.len() > 0 {
        lemma_text_total(a.skip(1), b.skip(1));
        if b.len() > 0 && a[0] == b[0] && a.skip(1) == b.skip(1) {
            assert(a =~= seq![a[0]] + a.skip(1));
            assert(b =~= seq![b[0]] + b.skip(1));
        }
    } else if b.len() == 0 {
        assert(a =~= b);
    }
}

proof fn lemma_text_transitive(a: Seq<char>, b: Seq<char>, c: Seq<char>)
    requires
        text_before(a, b),
        text_before(b, c),
    ensures
        text_before(a, c),
    decreases a.len(),
{
    if a.len() > 0 && b.len() > 0 && c.len() > 0 && a[0] == b[0] && b[0] == c[0] {
        lemma_text_transitive(a.skip(1), b.skip(1), c.skip(1));
    }
}

proof fn lemma_key_total(a: (Seq<char>, Seq<char>), b: (Seq<char>, Seq<char>))
    ensures
        a != b ==> key_before(a, b) || key_before(b, a),
        !key_before(a, a),
{
    lemma_text_total(a.0, b.0);
    lemma_text_total(a.1, b.1);
}

proof fn lemma_key_transitive(
    a: (Seq<char>, Seq<char>),
    b: (Seq<char>, Seq<char>),
    c: (Seq<char>, Seq<char>),
)
    requires
        key_before(a, b),
        key_before(b, c),
    ensures
        key_before(a, c),
{
    if text_before(a.0, b.0) && text_before(b.0, c.0) {
        lemma_text_transitive(a.0, b.0, c.0);
    } else if a.0 == b.0 && b.0 == c.0 {
        lemma_text_transitive(a.1, b.1, c.1);
    }
}

/// A place with only earlier keys before it and none at it is where a key belongs.
pub proof fn lemma_key_place(
    keys: Seq<(Seq<char>, Seq<char>)>,
    key: (Seq<char>, Seq<char>),
    n: nat,
)
    requires
        n <= keys.len(),
        forall|j: int| 0 <= j < n ==> key_before(#[trigger] keys[j], key),
        n < keys.len() ==> !key_before(keys[n as int], key),
    ensures
        key_place(keys, key) == n,
    decreases keys.len(),
{
    if keys.len() > 0 {
        let t = keys.drop_last();
        if n == keys.len() {
            lemma_key_place(t, key, (n - 1) as nat);
        } else {
            lemma_key_place(t, key, n);
        }
    }
}

/// Only earlier keys stand before the place a key belongs at, and none stands at it.
pub proof fn lemma_place_bounds(keys: Seq<(Seq<char>, Seq<char>)>, key: (Seq<char>, Seq<char>))
    ensures
        key_place(keys, key) <= keys.len(),
        forall|j: int| 0 <= j < key_place(keys, key) ==> key_before(#[trigger] keys[j], key),
        key_place(keys, key) < keys.len() ==> !key_before(keys[key_place(keys, key) as int], key),
    decreases keys.len(),
{
    if keys.len() > 0 {
        let t = keys.drop_last();
        lemma_place_bounds(t, key);
        assert forall|j: int| 0 <= j < key_place(keys, key) implies key_before(
            #[trigger] keys[j],
            key,
        ) by {
            if j < t.len() {
                assert(t[j] == keys[j]);
            }
        }
        let n = key_place(t, key);
        if n < t.len() {
            assert(t[n as int] == keys[n as int]);
        }
    }
}

/// A key that is put among keys in order leaves them in order.
pub proof fn a_new_key_keeps_the_order(
    keys: Seq<(Seq<char>, Seq<char>)>,
    key: (Seq<char>, Seq<char>),
)
    requires
        ascending(keys),
    ensures
        ascending(with_key(keys, key)),
{
    if !keys.contains(key) {
        let at = key_place(keys, key) as int;
        let now = keys.insert(at, key);
        lemma_place_bounds(keys, key);
        assert forall|j: int| at <= j < keys.len() implies key_before(key, #[trigger] keys[j]) by {
            lemma_key_total(keys[at], key);
            assert(keys.contains(keys[at]));
            assert(key_before(key, keys[at]));
            if at < j {
                lemma_key_transitive(key, keys[at], keys[j]);
            }
        }
        assert forall|i: int, j: int| 0 <= i < j < now.len() implies key_before(
            #[trigger] now[i],
            #[trigger] now[j],
        ) by {
            if i < at && j > at {
                assert(now[j] == keys[j - 1]);
                assert(key_before(keys[i], keys[j - 1]));
            } else if i > at {
                assert(key_before(keys[i - 1], keys[j - 1]));
            } else if i == at {
                assert(now[j] == keys[j - 1]);
                assert(key_before(key, keys[j - 1]));
            } else if j < at {
                assert(key_before(keys[i], keys[j]));
            } else {
                assert(key_before(keys[i], key));
            }
        }
    }
}

/// Whether the text `a` comes before the text `b`.
pub fn is_text_before(a: &str, b: &str) -> (r: bool)
    ensures
        r == text_before(a@, b@),
{
    let n: usize = a.unicode_len();
    let m: usize = b.unicode_len();
    let mut i: usize = 0;
    assert(a@.skip(0) =~= a@ && b@.skip(0) =~= b@);
    while i < n && i < m
        invariant
            n == a@.len(),
            m == b@.len(),
            i <= n,
            i <= m,
            text_before(a@, b@) == text_before(a@.skip(i as int), b@.skip(i as int)),
        decreases n - i,
    {
        let x = a.get_char(i);
        let y = b.get_char(i);
        if x != y {
            return (x as u32) < (y as u32);
        }
        assert(a@.skip(i as int).skip(1) =~= a@.skip(i + 1));
        assert(b@.skip(i as int).skip(1) =~= b@.skip(i + 1));
        i = i + 1;
    }
    i == n && i < m
}

/// Whether the key of two texts comes before another.
pub fn is_key_before(a: &str, a_second: &str, b: &str, b_second: &str) -> (r: bool)
    ensures
        r == key_before((a@, a_second@), (b@, b_second@)),
{
    proof {
        lemma_text_total(a@, b@);
    }
    if is_text_before(a, b) {
        true
    } else if is_text_before(b, a) {
        false
    } else {
        is_text_before(a_second, b_second)
    }
}

/// Texts are ordered by their first difference: where one is the beginning of the other the shorter comes
/// first, and otherwise the one with the lower character there.
pub proof fn texts_are_ordered_by_their_first_difference(
    common: Seq<char>,
    a: Seq<char>,
    b: Seq<char>,
)
    requires
        a.len() == 0 || b.len() == 0 || a[0] != b[0],
    ensures
        text_before(common + a, common + b) <==> b.len() > 0 && (a.len() == 0 || a[0] < b[0]),
    decreases common.len(),
{
    if common.len() == 0 {
        assert(common + a =~= a);
        assert(common + b =~= b);
    } else {
        texts_are_ordered_by_their_first_difference(common.skip(1), a, b);
        assert((common + a).skip(1) =~= common.skip(1) + a);
        assert((common + b).skip(1) =~= common.skip(1) + b);
    }
}

/// Keys are ordered by their first texts, and by their second ones where the first are equal; of two keys
/// one comes before the other, unless they are equal, and never both.
pub proof fn keys_are_ordered_text_by_text(a: (Seq<char>, Seq<char>), b: (Seq<char>, Seq<char>))
    ensures
        a.0 == b.0 ==> (key_before(a, b) <==> text_before(a.1, b.1)),
        a.0 != b.0 ==> (key_before(a, b) <==> text_before(a.0, b.0)),
        a == b || key_before(a, b) || key_before(b, a),
        !(key_before(a, b) && key_before(b, a)),
        !key_before(a, a),
{
    lemma_text_total(a.0, b.0);
    lemma_text_total(a.1, b.1);
    lemma_text_total(a.0, a.0);
}

/// A key that is put among others is among them then, and nothing else is added or lost.
pub proof fn a_key_is_put_once(
    keys: Seq<(Seq<char>, Seq<char>)>,
    key: (Seq<char>, Seq<char>),
    other: (Seq<char>, Seq<char>),
)
    ensures
        with_key(keys, key).contains(key),
        other != key ==> (with_key(keys, key).contains(other) <==> keys.contains(other)),
        with_key(keys, key).len() == keys.len() + (if keys.contains(key) {
            0int
        } else {
            1
        }),
{
    if !keys.contains(key) {
        lemma_place_bounds(keys, key);
        let at = key_place(keys, key) as int;
        let now = keys.insert(at, key);
        assert(now[at] == key);
        if keys.contains(other) {
            let i = choose|i: int| 0 <= i < keys.len() && keys[i] == other;
            if i < at {
                assert(now[i] == other);
            } else {
                assert(now[i + 1] == other);
            }
        }
        if now.contains(other) && other != key {
            let i = choose|i: int| 0 <= i < now.len() && now[i] == other;
            if i < at {
                assert(keys[i] == other);
            } else {
                assert(keys[i - 1] == other);
            }
        }
    }
}

} // verus!
