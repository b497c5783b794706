//! Association lists keyed by strings, and the finite maps they stand for.

use vstd::prelude::*;

verus! {

/// The keys of a list of pairs, as sequences of characters.
pub open spec fn key_views<V>(s: Seq<(String, V)>) -> Seq<Seq<char>> {
    s.map_values(|p: (String, V)| p.0@)
}

/// No key occurs twice.
pub open spec fn distinct<V>(s: Seq<(String, V)>) -> bool {
    key_views(s).no_duplicates()
}

/// The map that a list of pairs stands for: each key with the view of the
/// value that its first occurrence carries.
pub open spec fn as_map<V: View>(s: Seq<(String, V)>) -> Map<Seq<char>, V::V> {
    Map::new(
        |k: Seq<char>| key_views(s).contains(k),
        |k: Seq<char>| s[key_views(s).index_of(k)].1@,
    )
}

/// With distinct keys, the pair at position `i` is what the map holds under
/// its key.
pub proof fn lemma_lookup<V: View>(s: Seq<(String, V)>, i: int)
    requires
        distinct(s),
        0 <= i < s.len(),
    ensures
        as_map(s).dom().contains(s[i].0@),
        as_map(s)[s[i].0@] == s[i].1@,
{
    let keys = key_views(s);
    assert(keys[i] == s[i].0@);
    let j = keys.index_of(s[i].0@);
    assert(0 <= j < keys.len() && keys[j] == s[i].0@);
    assert(j == i);
}

/// A key is in the map exactly if some pair carries it.
pub proof fn lemma_dom<V: View>(s: Seq<(String, V)>, k: Seq<char>)
    ensures
        as_map(s).dom().contains(k) <==> exists|i: int|
            0 <= i < s.len() && (#[trigger] s[i]).0@ == k,
{
    let keys = key_views(s);
    if keys.contains(k) {
        let i = choose|i: int| 0 <= i < keys.len() && keys[i] == k;
        assert(s[i].0@ == k);
    }
    if exists|i: int| 0 <= i < s.len() && (#[trigger] s[i]).0@ == k {
        let i = choose|i: int| 0 <= i < s.len() && (#[trigger] s[i]).0@ == k;
        assert(keys[i] == k);
    }
}

/// The map has as many keys as the list has pairs.
pub proof fn lemma_size<V: View>(s: Seq<(String, V)>)
    requires
        distinct(s),
    ensures
        as_map(s).dom().finite(),
        as_map(s).dom().len() == s.len(),
{
    let keys = key_views(s);
    assert(as_map(s).dom() =~= keys.to_set());
    keys.unique_seq_to_set();
}

/// Appending a pair with a new key inserts it.
pub proof fn lemma_push<V: View>(s: Seq<(String, V)>, p: (String, V))
    requires
        distinct(s),
        !key_views(s).contains(p.0@),
    ensures
        distinct(s.push(p)),
        as_map(s.push(p)) == as_map(s).insert(p.0@, p.1@),
{
    let t = s.push(p);
    assert(key_views(t) =~= key_views(s).push(p.0@));
    assert(distinct(t)) by {
        assert forall|i: int, j: int|
            0 <= i < key_views(t).len() && 0 <= j < key_views(t).len() && i != j implies key_views(
            t,
        )[i] != key_views(t)[j] by {
            if i < s.len() && j < s.len() {
                assert(key_views(s)[i] != key_views(s)[j]);
            } else if i < s.len() {
                assert(key_views(s)[i] == key_views(t)[i]);
            } else {
                assert(key_views(s)[j] == key_views(t)[j]);
            }
        }
    }
    assert forall|k: Seq<char>| #[trigger]
        as_map(t).dom().contains(k) == as_map(s).insert(p.0@, p.1@).dom().contains(k) by {
        lemma_dom(t, k);
        lemma_dom(s, k);
        if as_map(t).dom().contains(k) {
            let i = choose|i: int| 0 <= i < t.len() && (#[trigger] t[i]).0@ == k;
            if i < s.len() {
                assert(s[i].0@ == k);
            }
        }
        if as_map(s).dom().contains(k) {
            let i = choose|i: int| 0 <= i < s.len() && (#[trigger] s[i]).0@ == k;
            assert(t[i].0@ == k);
        }
        if k == p.0@ {
            assert(t[s.len() as int].0@ == k);
        }
    }
    assert forall|k: Seq<char>| #[trigger] as_map(t).dom().contains(k) implies as_map(t)[k]
        == as_map(s).insert(p.0@, p.1@)[k] by {
        lemma_dom(t, k);
        let i = choose|i: int| 0 <= i < t.len() && (#[trigger] t[i]).0@ == k;
        lemma_lookup(t, i);
        if i < s.len() {
            assert(t[i] == s[i]);
            lemma_lookup(s, i);
            assert(key_views(s)[i] == k);
        }
    }
    assert(as_map(t) =~= as_map(s).insert(p.0@, p.1@));
}

/// Replacing the value at position `i`, under the same key, overwrites what
/// the map holds under that key.
pub proof fn lemma_replace<V: View>(s: Seq<(String, V)>, t: Seq<(String, V)>, i: int)
    requires
        distinct(s),
        0 <= i < s.len(),
        t.len() == s.len(),
        t[i].0@ == s[i].0@,
        forall|j: int| 0 <= j < s.len() && j != i ==> t[j] == s[j],
    ensures
        distinct(t),
        as_map(t) == as_map(s).insert(s[i].0@, t[i].1@),
{
    assert(key_views(t) =~= key_views(s)) by {
        assert forall|j: int| 0 <= j < s.len() implies key_views(t)[j] == key_views(s)[j] by {
            if j != i {
                assert(t[j] == s[j]);
            }
        }
    }
    assert forall|k: Seq<char>| #[trigger] as_map(t).dom().contains(k) implies as_map(t)[k]
        == as_map(s).insert(s[i].0@, t[i].1@)[k] by {
        lemma_dom(t, k);
        let j = choose|j: int| 0 <= j < t.len() && (#[trigger] t[j]).0@ == k;
        lemma_lookup(t, j);
        assert(key_views(s)[j] == k);
        assert(key_views(s)[i] == s[i].0@);
        if j != i {
            assert(t[j] == s[j]);
            lemma_lookup(s, j);
        }
    }
    assert(key_views(s)[i] == s[i].0@);
    assert(as_map(t) =~= as_map(s).insert(s[i].0@, t[i].1@));
}

/// Taking out the pair at position `i` removes its key.
pub proof fn lemma_remove<V: View>(s: Seq<(String, V)>, i: int)
    requires
        distinct(s),
        0 <= i < s.len(),
    ensures
        distinct(s.remove(i)),
        as_map(s.remove(i)) == as_map(s).remove(s[i].0@),
        !key_views(s.remove(i)).contains(s[i].0@),
{
    let t = s.remove(i);
    let keys = key_views(s);
    assert(key_views(t) =~= keys.remove(i));
    assert(distinct(t)) by {
        assert forall|a: int, b: int|
            0 <= a < key_views(t).len() && 0 <= b < key_views(t).len() && a != b implies key_views(
            t,
        )[a] != key_views(t)[b] by {
            let a0 = if a < i { a } else { a + 1 };
            let b0 = if b < i { b } else { b + 1 };
            assert(key_views(t)[a] == keys[a0]);
            assert(key_views(t)[b] == keys[b0]);
        }
    }
    assert(!key_views(t).contains(s[i].0@)) by {
        if key_views(t).contains(s[i].0@) {
            let a = choose|a: int| 0 <= a < key_views(t).len() && key_views(t)[a] == s[i].0@;
            let a0 = if a < i { a } else { a + 1 };
            assert(key_views(t)[a] == keys[a0]);
            assert(keys[i] == s[i].0@);
        }
    }
    assert forall|k: Seq<char>| #[trigger]
        as_map(t).dom().contains(k) == as_map(s).remove(s[i].0@).dom().contains(k) by {
        if as_map(s).dom().contains(k) && k != s[i].0@ {
            let j = choose|j: int| 0 <= j < keys.len() && keys[j] == k;
            assert(keys[i] == s[i].0@);
            let j0 = if j < i { j } else { j - 1 };
            assert(key_views(t)[j0] == k);
        }
        if as_map(t).dom().contains(k) {
            let a = choose|a: int| 0 <= a < key_views(t).len() && key_views(t)[a] == k;
            let a0 = if a < i { a } else { a + 1 };
            assert(keys[a0] == k);
        }
    }
    assert forall|k: Seq<char>| #[trigger] as_map(t).dom().contains(k) implies as_map(t)[k]
        == as_map(s).remove(s[i].0@)[k] by {
        lemma_dom(t, k);
        let a = choose|a: int| 0 <= a < t.len() && (#[trigger] t[a]).0@ == k;
        let a0 = if a < i { a } else { a + 1 };
        lemma_lookup(t, a);
        assert(t[a] == s[a0]);
        lemma_lookup(s, a0);
    }
    assert(as_map(t) =~= as_map(s).remove(s[i].0@));
}

/// Position of the pair that carries `key`, if there is one.
pub fn position<V>(pairs: &Vec<(String, V)>, key: &String) -> (r: Option<usize>)
    ensures
        match r {
            Some(i) => i < pairs.len() && pairs@[i as int].0@ == key@,
            None => !key_views(pairs@).contains(key@),
        },
{
    let mut i: usize = 0;
    while i < pairs.len()
        invariant
            i <= pairs.len(),
            forall|j: int| 0 <= j < i ==> (#[trigger] pairs@[j]).0@ != key@,
        decreases pairs.len() - i,
    {
        if pairs[i].0 == *key {
            return Some(i);
        }
        i += 1;
    }
    assert(!key_views(pairs@).contains(key@)) by {
        if key_views(pairs@).contains(key@) {
            let j = choose|j: int|
                0 <= j < key_views(pairs@).len() && key_views(pairs@)[j] == key@;
            assert(pairs@[j].0@ == key@);
        }
    }
    None
}

} // verus!
