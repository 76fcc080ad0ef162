//! The store's contents, as a mathematical model: a sequence of records
//! without a repeated key, which stands for a mapping from keys to values.

use vstd::prelude::*;

verus! {

/// The keys of a sequence of records, in order.
pub open spec fn keys(recs: Seq<(Seq<char>, Seq<char>)>) -> Seq<Seq<char>> {
    recs.map_values(|r: (Seq<char>, Seq<char>)| r.0)
}

/// No key occurs twice.
pub open spec fn distinct(recs: Seq<(Seq<char>, Seq<char>)>) -> bool {
    keys(recs).no_duplicates()
}

/// Where the record with the given key stands, if there is one.
pub open spec fn position(recs: Seq<(Seq<char>, Seq<char>)>, key: Seq<char>) -> Option<int> {
    keys(recs).index_of_first(key)
}

/// The mapping that a sequence of records stands for. Where a key occurs
/// more than once, its first record counts.
pub open spec fn map_of(recs: Seq<(Seq<char>, Seq<char>)>) -> Map<Seq<char>, Seq<char>> {
    Map::new(
        |k: Seq<char>| keys(recs).contains(k),
        |k: Seq<char>| recs[position(recs, k)->0].1,
    )
}

/// The records after `key` has been set to `value`: a record with that key
/// is replaced where it stands, and a new key goes to the end.
pub open spec fn put(recs: Seq<(Seq<char>, Seq<char>)>, key: Seq<char>, value: Seq<char>) -> Seq<
    (Seq<char>, Seq<char>),
> {
    match position(recs, key) {
        Some(i) => recs.update(i, (key, value)),
        None => recs.push((key, value)),
    }
}

/// The records without the one that has the given key.
pub open spec fn delete(recs: Seq<(Seq<char>, Seq<char>)>, key: Seq<char>) -> Seq<
    (Seq<char>, Seq<char>),
> {
    match position(recs, key) {
        Some(i) => recs.remove(i),
        None => recs,
    }
}

/// What `position` finds: the first record with the key, or none at all.
pub proof fn lemma_position(recs: Seq<(Seq<char>, Seq<char>)>, key: Seq<char>)
    ensures
        match position(recs, key) {
            Some(i) => {
                &&& 0 <= i < recs.len()
                &&& recs[i].0 == key
                &&& forall|j: int| 0 <= j < i ==> recs[j].0 != key
            },
            None => forall|j: int| 0 <= j < recs.len() ==> recs[j].0 != key,
        },
{
    let ks = keys(recs);
    ks.index_of_first_ensures(key);
    match position(recs, key) {
        Some(i) => {
            assert forall|j: int| 0 <= j < i implies recs[j].0 != key by {
                assert(ks[j] != key);
            }
        },
        None => {
            assert forall|j: int| 0 <= j < recs.len() implies recs[j].0 != key by {
                assert(ks[j] == recs[j].0);
            }
        },
    }
}

/// The first record with the key is the one that `position` finds.
pub proof fn lemma_position_found(recs: Seq<(Seq<char>, Seq<char>)>, key: Seq<char>, i: int)
    requires
        0 <= i < recs.len(),
        recs[i].0 == key,
        forall|j: int| 0 <= j < i ==> recs[j].0 != key,
    ensures
        position(recs, key) == Some(i),
{
    lemma_position(recs, key);
    assert(keys(recs)[i] == key);
}

/// Where no record has the key, `position` finds none.
pub proof fn lemma_position_absent(recs: Seq<(Seq<char>, Seq<char>)>, key: Seq<char>)
    requires
        forall|j: int| 0 <= j < recs.len() ==> recs[j].0 != key,
    ensures
        position(recs, key) is None,
{
    lemma_position(recs, key);
}

/// Among records without a repeated key, any record with the key is the
/// one that `position` finds.
pub proof fn lemma_position_distinct(recs: Seq<(Seq<char>, Seq<char>)>, i: int)
    requires
        distinct(recs),
        0 <= i < recs.len(),
    ensures
        position(recs, recs[i].0) == Some(i),
{
    let ks = keys(recs);
    assert forall|j: int| 0 <= j < i implies recs[j].0 != recs[i].0 by {
        assert(ks[j] == recs[j].0 && ks[i] == recs[i].0);
    }
    lemma_position_found(recs, recs[i].0, i);
}

/// Replacing the value of a record moves no key.
pub proof fn lemma_position_update(
    recs: Seq<(Seq<char>, Seq<char>)>,
    i: int,
    value: Seq<char>,
    key: Seq<char>,
)
    requires
        0 <= i < recs.len(),
    ensures
        position(recs.update(i, (recs[i].0, value)), key) == position(recs, key),
{
    assert(keys(recs.update(i, (recs[i].0, value))) =~= keys(recs));
}

/// A record added at the end is found under its key unless an earlier
/// record has that key; every other key is found where it was.
pub proof fn lemma_position_push(
    recs: Seq<(Seq<char>, Seq<char>)>,
    rec: (Seq<char>, Seq<char>),
    key: Seq<char>,
)
    ensures
        position(recs.push(rec), key) == if position(recs, key) is Some {
            position(recs, key)
        } else if key == rec.0 {
            Some(recs.len() as int)
        } else {
            None
        },
{
    let grown = recs.push(rec);
    lemma_position(recs, key);
    match position(recs, key) {
        Some(i) => {
            assert(grown[i] == recs[i]);
            assert forall|j: int| 0 <= j < i implies grown[j].0 != key by {
                assert(grown[j] == recs[j]);
            }
            lemma_position_found(grown, key, i);
        },
        None => {
            if key == rec.0 {
                assert forall|j: int| 0 <= j < recs.len() implies grown[j].0 != key by {
                    assert(grown[j] == recs[j]);
                }
                lemma_position_found(grown, key, recs.len() as int);
            } else {
                assert forall|j: int| 0 <= j < grown.len() implies grown[j].0 != key by {
                    if j < recs.len() {
                        assert(grown[j] == recs[j]);
                    }
                }
                lemma_position_absent(grown, key);
            }
        },
    }
}

/// Among records without a repeated key, taking one out leaves its key
/// without a record, and moves each record behind it one place forward.
pub proof fn lemma_position_remove(recs: Seq<(Seq<char>, Seq<char>)>, i: int, key: Seq<char>)
    requires
        distinct(recs),
        0 <= i < recs.len(),
    ensures
        position(recs.remove(i), key) == match position(recs, key) {
            Some(p) => if p == i {
                None
            } else if p < i {
                Some(p)
            } else {
                Some(p - 1)
            },
            None => None,
        },
{
    let after = recs.remove(i);
    lemma_position(recs, key);
    lemma_position_distinct(recs, i);
    match position(recs, key) {
        Some(p) => {
            if p == i {
                assert forall|j: int| 0 <= j < after.len() implies after[j].0 != key by {
                    let j0 = if j < i { j } else { j + 1 };
                    lemma_position_distinct(recs, j0);
                }
                lemma_position_absent(after, key);
            } else {
                let p1 = if p < i { p } else { p - 1 };
                assert(after[p1] == recs[p]);
                assert forall|j: int| 0 <= j < p1 implies after[j].0 != key by {
                    let j0 = if j < i { j } else { j + 1 };
                    lemma_position_distinct(recs, j0);
                    lemma_position_distinct(recs, p);
                }
                lemma_position_found(after, key, p1);
            }
        },
        None => {
            assert forall|j: int| 0 <= j < after.len() implies after[j].0 != key by {
                let j0 = if j < i { j } else { j + 1 };
                assert(after[j] == recs[j0]);
            }
            lemma_position_absent(after, key);
        },
    }
}

/// What a mapping of records holds: a key is in it where a record has that
/// key, and it maps the key to the value of the first such record.
pub proof fn lemma_map_of(recs: Seq<(Seq<char>, Seq<char>)>, key: Seq<char>)
    ensures
        map_of(recs).contains_key(key) <==> position(recs, key) is Some,
        position(recs, key) matches Some(i) ==> map_of(recs)[key] == recs[i].1,
{
    lemma_position(recs, key);
    if position(recs, key) is Some {
        assert(keys(recs)[position(recs, key)->0] == key);
    }
}

/// Setting a key keeps the keys distinct, and does to the mapping what
/// `Map::insert` does.
pub proof fn lemma_put(recs: Seq<(Seq<char>, Seq<char>)>, key: Seq<char>, value: Seq<char>)
    ensures
        distinct(recs) ==> distinct(put(recs, key, value)),
        map_of(put(recs, key, value)) == map_of(recs).insert(key, value),
{
    let after = put(recs, key, value);
    lemma_position(recs, key);
    if distinct(recs) {
        assert forall|a: int, b: int|
            0 <= a < after.len() && 0 <= b < after.len() && a != b implies keys(after)[a] != keys(
            after,
        )[b] by {
            if a < recs.len() {
                assert(keys(recs)[a] == recs[a].0);
            }
            if b < recs.len() {
                assert(keys(recs)[b] == recs[b].0);
            }
        }
    }
    let want = map_of(recs).insert(key, value);
    assert forall|k: Seq<char>|
        (#[trigger] map_of(after).dom().contains(k)) == want.dom().contains(k) && (map_of(
            after,
        ).dom().contains(k) ==> map_of(after)[k] == want[k]) by {
        lemma_position(recs, k);
        lemma_map_of(recs, k);
        lemma_map_of(after, k);
        match position(recs, k) {
            Some(j) => {
                assert(after[j].0 == k);
                assert forall|m: int| 0 <= m < j implies after[m].0 != k by {}
                lemma_position_found(after, k, j);
            },
            None => {
                if k == key {
                    lemma_position_found(after, k, recs.len() as int);
                } else {
                    lemma_position_absent(after, k);
                }
            },
        }
    }
    assert(map_of(after) =~= want);
}

/// Deleting a key keeps the keys distinct; among records without a
/// repeated key it does to the mapping what `Map::remove` does.
pub proof fn lemma_delete(recs: Seq<(Seq<char>, Seq<char>)>, key: Seq<char>)
    requires
        distinct(recs),
    ensures
        distinct(delete(recs, key)),
        map_of(delete(recs, key)) == map_of(recs).remove(key),
{
    let after = delete(recs, key);
    lemma_position(recs, key);
    match position(recs, key) {
        Some(i) => {
            assert forall|a: int, b: int|
                0 <= a < after.len() && 0 <= b < after.len() && a != b implies keys(after)[a]
                != keys(after)[b] by {
                let a0 = if a < i { a } else { a + 1 };
                let b0 = if b < i { b } else { b + 1 };
                assert(keys(recs)[a0] == recs[a0].0 && keys(recs)[b0] == recs[b0].0);
            }
            let want = map_of(recs).remove(key);
            assert forall|k: Seq<char>|
                (#[trigger] map_of(after).dom().contains(k)) == want.dom().contains(k) && (map_of(
                    after,
                ).dom().contains(k) ==> map_of(after)[k] == want[k]) by {
                lemma_position(recs, k);
                lemma_position(after, k);
                lemma_map_of(recs, k);
                lemma_map_of(after, k);
                match position(after, k) {
                    Some(j) => {
                        let j0 = if j < i { j } else { j + 1 };
                        lemma_position_distinct(recs, j0);
                        lemma_position_distinct(recs, i);
                    },
                    None => {
                        if position(recs, k) is Some && k != key {
                            let m = position(recs, k)->0;
                            let m1 = if m < i { m } else { m - 1 };
                            assert(after[m1].0 == k);
                        }
                    },
                }
            }
            assert(map_of(after) =~= want);
        },
        None => {
            lemma_map_of(recs, key);
            assert(map_of(recs).remove(key) =~= map_of(recs));
        },
    }
}

/// Deleting a key that no record has leaves the records as they are.
pub proof fn lemma_delete_absent(recs: Seq<(Seq<char>, Seq<char>)>, key: Seq<char>)
    requires
        !map_of(recs).contains_key(key),
    ensures
        delete(recs, key) == recs,
{
    lemma_map_of(recs, key);
}

/// Deleting twice. After a key has been set, the first delete finds it
/// and takes it out; a second delete finds nothing and changes nothing.
pub proof fn lemma_delete_twice(recs: Seq<(Seq<char>, Seq<char>)>, key: Seq<char>, value: Seq<char>)
    requires
        distinct(recs),
    ensures
        map_of(put(recs, key, value)).contains_key(key),
        map_of(put(recs, key, value))[key] == value,
        !map_of(delete(put(recs, key, value), key)).contains_key(key),
        delete(delete(put(recs, key, value), key), key) == delete(put(recs, key, value), key),
{
    let set = put(recs, key, value);
    lemma_put(recs, key, value);
    lemma_delete(set, key);
    lemma_delete_absent(delete(set, key), key);
}

} // verus!
