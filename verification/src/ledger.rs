//! Keyed records held as vectors of `(key, value)` pairs with distinct keys,
//! and key sets held as vectors of distinct strings.
use crate::text::same_text;
use vstd::prelude::*;

verus! {

/// No key occurs twice.
pub open spec fn unique_keys<V>(s: Seq<(String, V)>) -> bool {
    forall|i: int, j: int| 0 <= i < s.len() && 0 <= j < s.len() && i != j ==> #[trigger] s[i].0@ != #[trigger] s[j].0@
}

pub open spec fn has_key<V>(s: Seq<(String, V)>, k: Seq<char>) -> bool {
    exists|i: int| 0 <= i < s.len() && #[trigger] s[i].0@ == k
}

/// The value recorded under `k`.
pub open spec fn value_of<V>(s: Seq<(String, V)>, k: Seq<char>) -> Option<V> {
    if has_key(s, k) {
        Some(s[choose|i: int| 0 <= i < s.len() && #[trigger] s[i].0@ == k].1)
    } else {
        None
    }
}

/// With distinct keys, the value under the key at `i` is the value at `i`.
pub proof fn lemma_value_at<V>(s: Seq<(String, V)>, i: int)
    requires
        unique_keys(s),
        0 <= i < s.len(),
    ensures
        value_of(s, s[i].0@) == Some(s[i].1),
{
    let k = s[i].0@;
    assert(has_key(s, k));
    let j = choose|j: int| 0 <= j < s.len() && #[trigger] s[j].0@ == k;
    if j != i {
        assert(s[i].0@ != s[j].0@);
    }
}

/// The position of key `k`.
pub fn position<V>(s: &Vec<(String, V)>, k: &str) -> (r: Option<usize>)
    ensures
        match r {
            Some(i) => i < s@.len() && s@[i as int].0@ == k@,
            None => !has_key(s@, k@),
        },
{
    let mut i: usize = 0;
    while i < s.len()
        invariant
            i <= s@.len(),
            forall|j: int| 0 <= j < i ==> s@[j].0@ != k@,
        decreases s@.len() - i,
    {
        if same_text(s[i].0.as_str(), k) {
            return Some(i);
        }
        i = i + 1;
    }
    None
}

/// Records `v` under `k`, replacing an earlier value; other keys keep theirs.
pub fn upsert<V>(s: &mut Vec<(String, V)>, k: String, v: V)
    requires
        unique_keys(old(s)@),
    ensures
        unique_keys(final(s)@),
        value_of(final(s)@, k@) == Some(v),
        forall|k2: Seq<char>| k2 != k@ ==> value_of(final(s)@, k2) == value_of(old(s)@, k2),
        forall|k2: Seq<char>| has_key(final(s)@, k2) <==> (has_key(old(s)@, k2) || k2 == k@),
        final(s)@.len() == old(s)@.len() + (if has_key(old(s)@, k@) { 0int } else { 1int }),
{
    let ghost key = k@;
    let ghost before = s@;
    match position(s, k.as_str()) {
        Some(i) => {
            assert(has_key(before, key));
            s.set(i, (k, v));
            assert forall|a: int, b: int|
                0 <= a < s@.len() && 0 <= b < s@.len() && a != b implies #[trigger] s@[a].0@
                != #[trigger] s@[b].0@ by {
                assert(before[a].0@ != before[b].0@);
            }
            proof {
                lemma_value_at(s@, i as int);
            }
            assert forall|k2: Seq<char>| k2 != key implies value_of(s@, k2) == value_of(before, k2) by {
                if has_key(before, k2) {
                    let j = choose|j: int| 0 <= j < before.len() && #[trigger] before[j].0@ == k2;
                    assert(s@[j].0@ == k2);
                    lemma_value_at(s@, j);
                    lemma_value_at(before, j);
                } else {
                    if has_key(s@, k2) {
                        let j = choose|j: int| 0 <= j < s@.len() && #[trigger] s@[j].0@ == k2;
                        assert(before[j].0@ == k2);
                    }
                }
            }
            assert forall|k2: Seq<char>| has_key(s@, k2) <==> (has_key(before, k2) || k2 == key) by {
                if has_key(s@, k2) {
                    let j = choose|j: int| 0 <= j < s@.len() && #[trigger] s@[j].0@ == k2;
                    if j != i {
                        assert(before[j].0@ == k2);
                    }
                }
                if has_key(before, k2) {
                    let j = choose|j: int| 0 <= j < before.len() && #[trigger] before[j].0@ == k2;
                    assert(s@[j].0@ == k2);
                }
                if k2 == key {
                    assert(s@[i as int].0@ == k2);
                }
            }
        },
        None => {
            s.push((k, v));
            let ghost n: int = s@.len() - 1;
            assert forall|a: int, b: int|
                0 <= a < s@.len() && 0 <= b < s@.len() && a != b implies #[trigger] s@[a].0@
                != #[trigger] s@[b].0@ by {
                if a < n && b < n {
                    assert(before[a].0@ != before[b].0@);
                } else if a == n {
                    assert(s@[b].0@ == before[b].0@);
                } else {
                    assert(s@[a].0@ == before[a].0@);
                }
            }
            proof {
                lemma_value_at(s@, n);
            }
            assert forall|k2: Seq<char>| k2 != key implies value_of(s@, k2) == value_of(before, k2) by {
                if has_key(before, k2) {
                    let j = choose|j: int| 0 <= j < before.len() && #[trigger] before[j].0@ == k2;
                    assert(s@[j] == before[j]);
                    lemma_value_at(s@, j);
                    lemma_value_at(before, j);
                } else {
                    if has_key(s@, k2) {
                        let j = choose|j: int| 0 <= j < s@.len() && #[trigger] s@[j].0@ == k2;
                        assert(before[j].0@ == k2);
                    }
                }
            }
            assert forall|k2: Seq<char>| has_key(s@, k2) <==> (has_key(before, k2) || k2 == key) by {
                if has_key(s@, k2) {
                    let j = choose|j: int| 0 <= j < s@.len() && #[trigger] s@[j].0@ == k2;
                    if j != n {
                        assert(before[j].0@ == k2);
                    }
                }
                if has_key(before, k2) {
                    let j = choose|j: int| 0 <= j < before.len() && #[trigger] before[j].0@ == k2;
                    assert(s@[j].0@ == k2);
                }
                if k2 == key {
                    assert(s@[n].0@ == k2);
                }
            }
        },
    }
}

/// Drops the record under `k`, if any; other keys keep their values.
pub fn remove_key<V>(s: &mut Vec<(String, V)>, k: &str)
    requires
        unique_keys(old(s)@),
    ensures
        unique_keys(final(s)@),
        value_of(final(s)@, k@) is None,
        !has_key(final(s)@, k@),
        forall|k2: Seq<char>| k2 != k@ ==> value_of(final(s)@, k2) == value_of(old(s)@, k2),
        forall|k2: Seq<char>| k2 != k@ ==> (has_key(final(s)@, k2) <==> has_key(old(s)@, k2)),
        final(s)@.len() == old(s)@.len() - (if has_key(old(s)@, k@) { 1int } else { 0int }),
{
    let ghost before = s@;
    match position(s, k) {
        Some(i) => {
            assert(has_key(before, k@));
            s.remove(i);
            assert(s@ =~= before.remove(i as int));
            assert forall|a: int, b: int|
                0 <= a < s@.len() && 0 <= b < s@.len() && a != b implies #[trigger] s@[a].0@
                != #[trigger] s@[b].0@ by {
                let a2 = if a < i { a } else { a + 1 };
                let b2 = if b < i { b } else { b + 1 };
                assert(before[a2].0@ != before[b2].0@);
            }
            assert(!has_key(s@, k@)) by {
                if has_key(s@, k@) {
                    let j = choose|j: int| 0 <= j < s@.len() && #[trigger] s@[j].0@ == k@;
                    let j2 = if j < i { j } else { j + 1 };
                    assert(before[j2].0@ == k@);
                    assert(before[i as int].0@ == k@);
                }
            }
            assert forall|k2: Seq<char>| k2 != k@ implies value_of(s@, k2) == value_of(before, k2)
                && (has_key(s@, k2) <==> has_key(before, k2)) by {
                if has_key(before, k2) {
                    let j = choose|j: int| 0 <= j < before.len() && #[trigger] before[j].0@ == k2;
                    assert(j != i);
                    let j2 = if j < i { j } else { j - 1 };
                    assert(s@[j2] == before[j]);
                    lemma_value_at(s@, j2);
                    lemma_value_at(before, j);
                }
                if has_key(s@, k2) {
                    let j = choose|j: int| 0 <= j < s@.len() && #[trigger] s@[j].0@ == k2;
                    let j2 = if j < i { j } else { j + 1 };
                    assert(before[j2].0@ == k2);
                }
            }
        },
        None => {
            assert forall|k2: Seq<char>| k2 != k@ implies value_of(s@, k2) == value_of(before, k2) by {
            }
        },
    }
}

/// No string occurs twice.
pub open spec fn unique_names(s: Seq<String>) -> bool {
    forall|i: int, j: int| 0 <= i < s.len() && 0 <= j < s.len() && i != j ==> #[trigger] s[i]@ != #[trigger] s[j]@
}

pub open spec fn has_name(s: Seq<String>, k: Seq<char>) -> bool {
    exists|i: int| 0 <= i < s.len() && #[trigger] s[i]@ == k
}

pub fn name_position(s: &Vec<String>, k: &str) -> (r: Option<usize>)
    ensures
        match r {
            Some(i) => i < s@.len() && s@[i as int]@ == k@,
            None => !has_name(s@, k@),
        },
{
    let mut i: usize = 0;
    while i < s.len()
        invariant
            i <= s@.len(),
            forall|j: int| 0 <= j < i ==> s@[j]@ != k@,
        decreases s@.len() - i,
    {
        if same_text(s[i].as_str(), k) {
            return Some(i);
        }
        i = i + 1;
    }
    None
}

/// Adds `k` unless present.
pub fn insert_name(s: &mut Vec<String>, k: String)
    requires
        unique_names(old(s)@),
    ensures
        unique_names(final(s)@),
        forall|k2: Seq<char>| has_name(final(s)@, k2) <==> (has_name(old(s)@, k2) || k2 == k@),
{
    let ghost before = s@;
    let ghost key = k@;
    match name_position(s, k.as_str()) {
        Some(_) => {},
        None => {
            s.push(k);
            let ghost n: int = s@.len() - 1;
            assert forall|a: int, b: int|
                0 <= a < s@.len() && 0 <= b < s@.len() && a != b implies #[trigger] s@[a]@
                != #[trigger] s@[b]@ by {
                if a < n && b < n {
                    assert(before[a]@ != before[b]@);
                } else if a == n {
                    assert(s@[b] == before[b]);
                } else {
                    assert(s@[a] == before[a]);
                }
            }
            assert forall|k2: Seq<char>| has_name(s@, k2) <==> (has_name(before, k2) || k2 == key) by {
                if has_name(s@, k2) {
                    let j = choose|j: int| 0 <= j < s@.len() && #[trigger] s@[j]@ == k2;
                    if j != n {
                        assert(before[j]@ == k2);
                    }
                }
                if has_name(before, k2) {
                    let j = choose|j: int| 0 <= j < before.len() && #[trigger] before[j]@ == k2;
                    assert(s@[j]@ == k2);
                }
                if k2 == key {
                    assert(s@[n]@ == k2);
                }
            }
        },
    }
}

/// Removes `k`; returns whether it was present.
pub fn remove_name(s: &mut Vec<String>, k: &str) -> (r: bool)
    requires
        unique_names(old(s)@),
    ensures
        r == has_name(old(s)@, k@),
        unique_names(final(s)@),
        forall|k2: Seq<char>| has_name(final(s)@, k2) <==> (has_name(old(s)@, k2) && k2 != k@),
{
    let ghost before = s@;
    match name_position(s, k) {
        Some(i) => {
            s.remove(i);
            assert(s@ =~= before.remove(i as int));
            assert forall|a: int, b: int|
                0 <= a < s@.len() && 0 <= b < s@.len() && a != b implies #[trigger] s@[a]@
                != #[trigger] s@[b]@ by {
                let a2 = if a < i { a } else { a + 1 };
                let b2 = if b < i { b } else { b + 1 };
                assert(before[a2]@ != before[b2]@);
            }
            assert forall|k2: Seq<char>| has_name(s@, k2) <==> (has_name(before, k2) && k2 != k@) by {
                if has_name(s@, k2) {
                    let j = choose|j: int| 0 <= j < s@.len() && #[trigger] s@[j]@ == k2;
                    let j2 = if j < i { j } else { j + 1 };
                    assert(before[j2]@ == k2);
                    if k2 == k@ {
                        assert(before[i as int]@ == k2);
                    }
                }
                if has_name(before, k2) && k2 != k@ {
                    let j = choose|j: int| 0 <= j < before.len() && #[trigger] before[j]@ == k2;
                    assert(j != i);
                    let j2 = if j < i { j } else { j - 1 };
                    assert(s@[j2]@ == k2);
                }
            }
            true
        },
        None => false,
    }
}

} // verus!
