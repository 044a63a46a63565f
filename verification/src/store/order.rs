//! The order in which tables keep and list their rows.

use crate::text::{before, lemma_text_order, same, text_before};
use vstd::prelude::*;

verus! {

/// What a row is found by: one text, or two of which the first counts more.
pub struct Key {
    pub first: Seq<char>,
    pub second: Seq<char>,
}

/// Whether a key comes before another, bytewise.
pub open spec fn key_before(a: Key, b: Key) -> bool {
    ||| text_before(a.first, b.first)
    ||| a.first == b.first && text_before(a.second, b.second)
}

/// Whether keys are in order, and none occurs twice.
pub open spec fn ordered(keys: Seq<Key>) -> bool {
    forall|i: int, j: int|
        0 <= i < j < keys.len() ==> key_before(#[trigger] keys[i], #[trigger] keys[j])
}

/// How many keys at the front come before a key: its place in an ordered table,
/// whether it is there or not.
pub open spec fn place_of(keys: Seq<Key>, key: Key) -> nat
    decreases keys.len(),
{
    if keys.len() == 0 || !key_before(keys[0], key) {
        0
    } else {
        1 + place_of(keys.skip(1), key)
    }
}

/// The order of keys is total, antisymmetric and transitive.
pub proof fn lemma_key_order(a: Key, b: Key, c: Key)
    ensures
        !key_before(a, a),
        key_before(a, b) ==> !key_before(b, a),
        key_before(a, b) || key_before(b, a) || a == b,
        key_before(a, b) && key_before(b, c) ==> key_before(a, c),
{
    lemma_text_order(a.first, b.first, c.first);
    lemma_text_order(a.second, b.second, c.second);
    lemma_text_order(b.first, a.first, c.first);
    lemma_text_order(b.first, c.first, a.first);
}

/// What the place of a key splits.
pub proof fn lemma_place_of(keys: Seq<Key>, key: Key)
    ensures
        place_of(keys, key) <= keys.len(),
        forall|k: int| 0 <= k < place_of(keys, key) ==> key_before(#[trigger] keys[k], key),
        place_of(keys, key) < keys.len() ==> !key_before(keys[place_of(keys, key) as int], key),
    decreases keys.len(),
{
    if keys.len() > 0 && key_before(keys[0], key) {
        let rest = keys.skip(1);
        lemma_place_of(rest, key);
        assert forall|k: int| 0 <= k < place_of(keys, key) implies key_before(
            #[trigger] keys[k],
            key,
        ) by {
            if k > 0 {
                assert(keys[k] == rest[k - 1]);
            }
        }
        if place_of(keys, key) < keys.len() {
            assert(keys[place_of(keys, key) as int] == rest[place_of(rest, key) as int]);
        }
    }
}

/// An index with only earlier keys in front of it, and none behind, is the place.
pub proof fn lemma_place_is(keys: Seq<Key>, key: Key, at: int)
    requires
        0 <= at <= keys.len(),
        forall|k: int| 0 <= k < at ==> key_before(#[trigger] keys[k], key),
        at < keys.len() ==> !key_before(keys[at], key),
    ensures
        place_of(keys, key) == at,
    decreases at,
{
    if at > 0 {
        let rest = keys.skip(1);
        assert(key_before(keys[0], key));
        assert forall|k: int| 0 <= k < at - 1 implies key_before(#[trigger] rest[k], key) by {
            assert(rest[k] == keys[k + 1]);
        }
        lemma_place_is(rest, key, at - 1);
    }
}

/// In an ordered table a key is at its place or nowhere.
pub proof fn lemma_at_its_place(keys: Seq<Key>, key: Key, at: int)
    requires
        ordered(keys),
        0 <= at < keys.len(),
        keys[at] == key,
    ensures
        place_of(keys, key) == at,
{
    lemma_key_order(key, key, key);
    lemma_place_is(keys, key, at);
}

/// A key that was not there, put at its place, leaves the table in order.
pub proof fn lemma_insert_keeps_order(keys: Seq<Key>, key: Key)
    requires
        ordered(keys),
        !keys.contains(key),
    ensures
        ordered(keys.insert(place_of(keys, key) as int, key)),
{
    let p = place_of(keys, key) as int;
    lemma_place_of(keys, key);
    let now = keys.insert(p, key);
    assert forall|i: int, j: int| 0 <= i < j < now.len() implies key_before(
        #[trigger] now[i],
        #[trigger] now[j],
    ) by {
        if i == p {
            assert(now[j] == keys[j - 1]);
            assert(keys[p] != key) by {
                assert(keys.contains(keys[p]));
            }
            lemma_key_order(keys[p], key, key);
            if j - 1 > p {
                assert(key_before(keys[p], keys[j - 1]));
                lemma_key_order(key, keys[p], keys[j - 1]);
            }
        } else if i < p {
            assert(now[i] == keys[i]);
            if j > p {
                assert(now[j] == keys[j - 1]);
            } else if j < p {
                assert(now[j] == keys[j]);
            }
        } else {
            assert(now[i] == keys[i - 1]);
            assert(now[j] == keys[j - 1]);
        }
    }
}

/// An order has only one listing: two ordered tables with the same keys are the
/// same.
pub proof fn lemma_one_listing(a: Seq<Key>, b: Seq<Key>)
    requires
        ordered(a),
        ordered(b),
        forall|k: Key| a.contains(k) <==> b.contains(k),
    ensures
        a == b,
    decreases a.len(),
{
    if a.len() == 0 {
        if b.len() > 0 {
            assert(b.contains(b[0]));
        }
        assert(a =~= b);
    } else {
        assert(a.contains(a[0]));
        assert(b.contains(a[0]));
        let j = choose|j: int| 0 <= j < b.len() && b[j] == a[0];
        if j > 0 {
            assert(key_before(b[0], b[j]));
            assert(b.contains(b[0]));
            assert(a.contains(b[0]));
            let i = choose|i: int| 0 <= i < a.len() && a[i] == b[0];
            lemma_key_order(a[0], b[0], a[0]);
            if i > 0 {
                assert(key_before(a[0], a[i]));
            }
        }
        let (x, y) = (a.skip(1), b.skip(1));
        assert(ordered(x)) by {
            assert forall|i: int, j: int| 0 <= i < j < x.len() implies key_before(
                #[trigger] x[i],
                #[trigger] x[j],
            ) by {
                assert(x[i] == a[i + 1] && x[j] == a[j + 1]);
            }
        }
        assert(ordered(y)) by {
            assert forall|i: int, j: int| 0 <= i < j < y.len() implies key_before(
                #[trigger] y[i],
                #[trigger] y[j],
            ) by {
                assert(y[i] == b[i + 1] && y[j] == b[j + 1]);
            }
        }
        assert forall|k: Key| x.contains(k) <==> y.contains(k) by {
            lemma_tail_contains(a, k);
            lemma_tail_contains(b, k);
        }
        lemma_one_listing(x, y);
        assert(a =~= seq![a[0]] + x);
        assert(b =~= seq![b[0]] + y);
    }
}

proof fn lemma_tail_contains(a: Seq<Key>, k: Key)
    requires
        ordered(a),
        a.len() > 0,
    ensures
        a.skip(1).contains(k) <==> a.contains(k) && k != a[0],
{
    let x = a.skip(1);
    if x.contains(k) {
        let i = choose|i: int| 0 <= i < x.len() && x[i] == k;
        assert(a[i + 1] == k);
        assert(key_before(a[0], a[i + 1]));
        lemma_key_order(k, k, k);
    }
    if a.contains(k) && k != a[0] {
        let i = choose|i: int| 0 <= i < a.len() && a[i] == k;
        assert(x[i - 1] == k);
    }
}

/// Whether one pair of texts comes before another.
pub fn pair_before(a: (&str, &str), b: (&str, &str)) -> (r: bool)
    ensures
        r == key_before(
            Key { first: a.0@, second: a.1@ },
            Key { first: b.0@, second: b.1@ },
        ),
{
    before(a.0, b.0) || (same(a.0, b.0) && before(a.1, b.1))
}

} // verus!
