//! Ordered association lists.
//!
//! The compiler keeps every keyed, ordered collection (protocol entries,
//! switch variants, the name table of the lowering pass) as a sequence of
//! key/value pairs: insertion order is data here, so a plain map would lose
//! information. Lookup finds the first entry with a key; insert replaces the
//! value of an existing key in place, keeping its original position.

use vstd::prelude::*;

verus! {

/// The index of the first pair of `s` whose key is `key`, or `-1` when no
/// pair has that key.
pub open spec fn assoc_index<K, V>(s: Seq<(K, V)>, key: K) -> int
    decreases s.len(),
{
    if s.len() == 0 {
        -1
    } else if s[0].0 == key {
        0
    } else {
        let rest = assoc_index(s.subrange(1, s.len() as int), key);
        if rest < 0 {
            -1
        } else {
            rest + 1
        }
    }
}

/// Whether some pair of `s` has key `key`.
pub open spec fn assoc_has<K, V>(s: Seq<(K, V)>, key: K) -> bool {
    assoc_index(s, key) >= 0
}

/// The value of the first pair of `s` whose key is `key`.
pub open spec fn assoc_get<K, V>(s: Seq<(K, V)>, key: K) -> V {
    s[assoc_index(s, key)].1
}

/// Insert-or-replace: a new key goes to the end; an existing key keeps its
/// position and only its value changes.
pub open spec fn assoc_insert<K, V>(s: Seq<(K, V)>, key: K, value: V) -> Seq<(K, V)> {
    let i = assoc_index(s, key);
    if i < 0 {
        s.push((key, value))
    } else {
        s.update(i, (key, value))
    }
}

/// String-keyed pairs with their keys as character sequences, ready for
/// association-list lookup.
pub open spec fn str_entries<V>(s: Seq<(String, V)>) -> Seq<(Seq<char>, V)> {
    Seq::new(s.len(), |i: int| (s[i].0@, s[i].1))
}

/// `assoc_index` returns either `-1` with no matching key anywhere, or the
/// first matching position.
pub proof fn lemma_assoc_index<K, V>(s: Seq<(K, V)>, key: K)
    ensures
        assoc_index(s, key) == -1 ==> forall|i: int| 0 <= i < s.len() ==> s[i].0 != key,
        assoc_index(s, key) >= 0 ==> {
            let j = assoc_index(s, key);
            &&& j < s.len()
            &&& s[j].0 == key
            &&& forall|i: int| 0 <= i < j ==> s[i].0 != key
        },
    decreases s.len(),
{
    if s.len() > 0 {
        let rest = s.subrange(1, s.len() as int);
        lemma_assoc_index(rest, key);
        assert(forall|i: int| 1 <= i < s.len() ==> s[i] == rest[i - 1]);
    }
}

/// Insert-or-replace on a string-keyed table, exactly as [`assoc_insert`]
/// describes it on the table's entries.
pub fn table_insert<V>(table: &mut Vec<(String, V)>, key: String, value: V)
    ensures
        str_entries(final(table)@) == assoc_insert(str_entries(old(table)@), key@, value),
{
    let ghost entries = str_entries(table@);
    proof {
        lemma_assoc_index(entries, key@);
    }
    let n = table.len();
    let mut i: usize = 0;
    while i < n
        invariant
            n == table@.len(),
            table@ == old(table)@,
            entries == str_entries(table@),
            i <= n,
            forall|j: int| 0 <= j < i ==> table@[j].0@ != key@,
        decreases n - i,
    {
        if crate::text::str_eq(table[i].0.as_str(), key.as_str()) {
            proof {
                lemma_assoc_index_first(entries, key@, i as int);
            }
            table.set(i, (key, value));
            proof {
                assert(str_entries(table@) =~= entries.update(i as int, (key@, value)));
            }
            return;
        }
        i += 1;
    }
    table.push((key, value));
    proof {
        assert(str_entries(table@) =~= entries.push((key@, value)));
    }
}

/// When position `j` holds `key` and nothing before it does, `assoc_index`
/// finds exactly `j`.
pub proof fn lemma_assoc_index_first<K, V>(s: Seq<(K, V)>, key: K, j: int)
    requires
        0 <= j < s.len(),
        s[j].0 == key,
        forall|i: int| 0 <= i < j ==> s[i].0 != key,
    ensures
        assoc_index(s, key) == j,
    decreases j,
{
    if j > 0 {
        let rest = s.subrange(1, s.len() as int);
        assert(forall|i: int| 1 <= i < s.len() ==> s[i] == rest[i - 1]);
        lemma_assoc_index_first(rest, key, j - 1);
    }
}

} // verus!
