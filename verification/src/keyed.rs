//! Lists of `(name, value)` pairs used as maps from names to values: the
//! first entry with a name is the one that counts, and the operations here
//! keep each name at most once.

use vstd::prelude::*;

verus! {

/// Index of the first entry of `es` whose name is `k`.
pub open spec fn key_index<T>(es: Seq<(String, T)>, k: Seq<char>) -> Option<int>
    decreases es.len(),
{
    if es.len() == 0 {
        None
    } else {
        match key_index(es.drop_last(), k) {
            Some(i) => Some(i),
            None => if es.last().0@ == k {
                Some(es.len() - 1)
            } else {
                None
            },
        }
    }
}

/// No name occurs twice.
pub open spec fn keys_distinct<T>(es: Seq<(String, T)>) -> bool {
    forall|i: int, j: int| 0 <= i < es.len() && 0 <= j < es.len() && i != j ==> (#[trigger] es[i]).0@ != (#[trigger] es[j]).0@
}

/// The names of `es`, in order.
pub open spec fn keys_of<T>(es: Seq<(String, T)>) -> Seq<Seq<char>> {
    es.map_values(|e: (String, T)| e.0@)
}

pub proof fn lemma_key_index<T>(es: Seq<(String, T)>, k: Seq<char>)
    ensures
        match key_index(es, k) {
            Some(i) => 0 <= i < es.len() && es[i].0@ == k && forall|j: int| 0 <= j < i ==> (#[trigger] es[j]).0@ != k,
            None => forall|j: int| 0 <= j < es.len() ==> (#[trigger] es[j]).0@ != k,
        },
    decreases es.len(),
{
    if es.len() > 0 {
        lemma_key_index(es.drop_last(), k);
        match key_index(es.drop_last(), k) {
            Some(i) => {
                assert forall|j: int| 0 <= j < i implies (#[trigger] es[j]).0@ != k by {
                    assert(es[j] == es.drop_last()[j]);
                }
                assert(es[i] == es.drop_last()[i]);
            },
            None => {
                assert forall|j: int| 0 <= j < es.len() - 1 implies (#[trigger] es[j]).0@ != k by {
                    assert(es[j] == es.drop_last()[j]);
                }
            },
        }
    }
}

/// Where the entry named `k` is, if there is one.
pub fn find_key<T>(es: &Vec<(String, T)>, k: &str) -> (r: Option<usize>)
    ensures
        match key_index(es@, k@) {
            Some(i) => 0 <= i < es@.len() && (r matches Some(j) && j as int == i),
            None => r is None,
        },
{
    proof {
        lemma_key_index(es@, k@);
    }
    let mut i: usize = 0;
    while i < es.len()
        invariant
            0 <= i <= es@.len(),
            forall|j: int| 0 <= j < i ==> (#[trigger] es@[j]).0@ != k@,
            match key_index(es@, k@) {
                Some(x) => 0 <= x < es@.len() && es@[x].0@ == k@ && forall|j: int| 0 <= j < x ==> (#[trigger] es@[j]).0@ != k@,
                None => forall|j: int| 0 <= j < es@.len() ==> (#[trigger] es@[j]).0@ != k@,
            },
        decreases es@.len() - i,
    {
        if crate::text::str_eq(es[i].0.as_str(), k) {
            return Some(i);
        }
        i += 1;
    }
    None
}

/// The map a list of pairs stands for: each name to the value of its
/// first entry.
pub open spec fn entries_map<T>(es: Seq<(String, T)>) -> Map<Seq<char>, T> {
    Map::new(|k: Seq<char>| key_index(es, k) is Some, |k: Seq<char>| es[key_index(es, k).unwrap()].1)
}

/// With each name once, the entry named like the one at `i` is that one.
pub proof fn lemma_distinct_key_index<T>(es: Seq<(String, T)>, i: int)
    requires
        keys_distinct(es),
        0 <= i < es.len(),
    ensures
        key_index(es, es[i].0@) == Some(i),
{
    lemma_key_index(es, es[i].0@);
}

/// Appending an entry under a new name adds that name to the map.
pub proof fn lemma_entries_push<T>(es: Seq<(String, T)>, e: (String, T))
    requires
        keys_distinct(es),
        key_index(es, e.0@) is None,
    ensures
        keys_distinct(es.push(e)),
        entries_map(es.push(e)) == entries_map(es).insert(e.0@, e.1),
        forall|k: Seq<char>| #[trigger] key_index(es.push(e), k) == (if k == e.0@ { Some(es.len() as int) } else { key_index(es, k) }),
{
    lemma_key_index(es, e.0@);
    let es2 = es.push(e);
    assert forall|a: int, b: int| 0 <= a < es2.len() && 0 <= b < es2.len() && a != b implies (#[trigger] es2[a]).0@ != (#[trigger] es2[b]).0@ by {
        if a < es.len() && b < es.len() {
            assert(es2[a] == es[a] && es2[b] == es[b]);
        } else if a < es.len() {
            assert(es2[a] == es[a]);
        } else {
            assert(es2[b] == es[b]);
        }
    }
    assert forall|k: Seq<char>| #[trigger] key_index(es2, k) == (if k == e.0@ { Some(es.len() as int) } else { key_index(es, k) }) by {
        lemma_key_index(es2, k);
        lemma_key_index(es, k);
        match key_index(es, k) {
            Some(i) => {
                assert(es2[i] == es[i]);
                lemma_distinct_key_index(es2, i);
            },
            None => {
                if k == e.0@ {
                    lemma_distinct_key_index(es2, es.len() as int);
                } else {
                    assert forall|j: int| 0 <= j < es2.len() implies (#[trigger] es2[j]).0@ != k by {
                        if j < es.len() {
                            assert(es2[j] == es[j]);
                        }
                    }
                }
            },
        }
    }
    let m2 = entries_map(es).insert(e.0@, e.1);
    assert forall|k: Seq<char>| #[trigger] entries_map(es2).contains_key(k) <==> m2.contains_key(k) by {}
    assert forall|k: Seq<char>| entries_map(es2).contains_key(k) implies #[trigger] entries_map(es2)[k] == m2[k] by {
        if k != e.0@ {
            lemma_key_index(es, k);
            let i = key_index(es, k).unwrap();
            assert(es2[i] == es[i]);
        }
    }
    assert(entries_map(es2) =~= m2);
}

/// Replacing the value of an entry, its name kept, replaces it in the map.
pub proof fn lemma_entries_update<T>(es: Seq<(String, T)>, i: int, e: (String, T))
    requires
        keys_distinct(es),
        0 <= i < es.len(),
        es[i].0@ == e.0@,
    ensures
        keys_distinct(es.update(i, e)),
        entries_map(es.update(i, e)) == entries_map(es).insert(e.0@, e.1),
        forall|k: Seq<char>| #[trigger] key_index(es.update(i, e), k) == key_index(es, k),
{
    let es2 = es.update(i, e);
    assert forall|a: int, b: int| 0 <= a < es2.len() && 0 <= b < es2.len() && a != b implies (#[trigger] es2[a]).0@ != (#[trigger] es2[b]).0@ by {
        assert(es2[a].0@ == es[a].0@);
        assert(es2[b].0@ == es[b].0@);
    }
    assert forall|k: Seq<char>| #[trigger] key_index(es2, k) == key_index(es, k) by {
        lemma_key_index(es2, k);
        lemma_key_index(es, k);
        match key_index(es, k) {
            Some(j) => {
                assert(es2[j].0@ == es[j].0@);
                lemma_distinct_key_index(es2, j);
            },
            None => {
                assert forall|j: int| 0 <= j < es2.len() implies (#[trigger] es2[j]).0@ != k by {
                    assert(es2[j].0@ == es[j].0@);
                }
            },
        }
    }
    lemma_distinct_key_index(es, i);
    let m2 = entries_map(es).insert(e.0@, e.1);
    assert forall|k: Seq<char>| #[trigger] entries_map(es2).contains_key(k) <==> m2.contains_key(k) by {}
    assert forall|k: Seq<char>| entries_map(es2).contains_key(k) implies #[trigger] entries_map(es2)[k] == m2[k] by {
        lemma_key_index(es, k);
        let j = key_index(es, k).unwrap();
        if j != i {
            assert(es2[j] == es[j]);
        }
    }
    assert(entries_map(es2) =~= m2);
}

} // verus!
