//! How changes to the vectors that carry sets, hashes and sorted sets show
//! in their models.

use vstd::prelude::*;
use crate::assoc::{distinct, key_views, position};
use crate::model::{collect, dedup, entry, with_entry, without, without_entry};
use crate::score::{is_number, Score};
use crate::text::views;
use crate::value::{entry_views, firsts};

verus! {

/// In a sequence without duplicates an item is found where it stands.
pub proof fn lemma_index_unique<A>(s: Seq<A>, i: int)
    requires
        s.no_duplicates(),
        0 <= i < s.len(),
    ensures
        s.contains(s[i]),
        s.index_of(s[i]) == i,
{
    let j = s.index_of(s[i]);
    assert(0 <= j < s.len() && s[j] == s[i]);
}

/// The names of the models are the models of the names.
pub proof fn lemma_firsts<V: View>(s: Seq<(String, V)>)
    ensures
        firsts(entry_views(s)) == key_views(s),
{
    assert(firsts(entry_views(s)) =~= key_views(s));
}

/// The item at position `j` is what the model holds under its name.
pub proof fn lemma_entry_found<V: View>(s: Seq<(String, V)>, j: int)
    requires
        distinct(s),
        0 <= j < s.len(),
    ensures
        entry(entry_views(s), s[j].0@) == Some(s[j].1@),
{
    lemma_firsts(s);
    assert(key_views(s)[j] == s[j].0@);
    lemma_index_unique(key_views(s), j);
}

/// A name that no item carries is not in the model.
pub proof fn lemma_entry_absent<V: View>(s: Seq<(String, V)>, name: Seq<char>)
    requires
        !key_views(s).contains(name),
    ensures
        entry(entry_views(s), name).is_none(),
{
    lemma_firsts(s);
}

/// A new value at position `j`, under the same name.
pub proof fn lemma_entry_replaced<V: View>(s: Seq<(String, V)>, t: Seq<(String, V)>, j: int)
    requires
        distinct(s),
        0 <= j < s.len(),
        t.len() == s.len(),
        t[j].0@ == s[j].0@,
        forall|i: int| 0 <= i < s.len() && i != j ==> t[i] == s[i],
    ensures
        distinct(t),
        entry_views(t) == with_entry(entry_views(s), s[j].0@, t[j].1@),
{
    lemma_firsts(s);
    assert(key_views(s)[j] == s[j].0@);
    lemma_index_unique(key_views(s), j);
    assert(key_views(t) =~= key_views(s)) by {
        assert forall|i: int| 0 <= i < s.len() implies key_views(t)[i] == key_views(s)[i] by {
            if i != j {
                assert(t[i] == s[i]);
            }
        }
    }
    assert(entry_views(t) =~= entry_views(s).update(j, (s[j].0@, t[j].1@))) by {
        assert forall|i: int| 0 <= i < s.len() implies entry_views(t)[i] == entry_views(s).update(
            j,
            (s[j].0@, t[j].1@),
        )[i] by {
            if i != j {
                assert(t[i] == s[i]);
            }
        }
    }
}

/// A new last item under a new name.
pub proof fn lemma_entry_added<V: View>(s: Seq<(String, V)>, p: (String, V))
    requires
        distinct(s),
        !key_views(s).contains(p.0@),
    ensures
        distinct(s.push(p)),
        entry_views(s.push(p)) == with_entry(entry_views(s), p.0@, p.1@),
{
    lemma_firsts(s);
    assert(entry_views(s.push(p)) =~= entry_views(s).push((p.0@, p.1@)));
    assert(key_views(s.push(p)) =~= key_views(s).push(p.0@));
    assert forall|a: int, b: int|
        0 <= a < s.len() + 1 && 0 <= b < s.len() + 1 && a != b implies key_views(s.push(p))[a]
        != key_views(s.push(p))[b] by {
        if a < s.len() && b < s.len() {
            assert(key_views(s)[a] != key_views(s)[b]);
        } else if a < s.len() {
            assert(key_views(s)[a] == key_views(s.push(p))[a]);
        } else {
            assert(key_views(s)[b] == key_views(s.push(p))[b]);
        }
    }
}

/// The item at position `j` taken out.
pub proof fn lemma_entry_taken<V: View>(s: Seq<(String, V)>, j: int)
    requires
        distinct(s),
        0 <= j < s.len(),
    ensures
        distinct(s.remove(j)),
        entry_views(s.remove(j)) == without_entry(entry_views(s), s[j].0@),
{
    lemma_firsts(s);
    assert(key_views(s)[j] == s[j].0@);
    lemma_index_unique(key_views(s), j);
    assert(entry_views(s.remove(j)) =~= entry_views(s).remove(j));
    assert(key_views(s.remove(j)) =~= key_views(s).remove(j));
    assert forall|a: int, b: int|
        0 <= a < s.len() - 1 && 0 <= b < s.len() - 1 && a != b implies key_views(s.remove(j))[a]
        != key_views(s.remove(j))[b] by {
        let a0 = if a < j { a } else { a + 1 };
        let b0 = if b < j { b } else { b + 1 };
        assert(key_views(s.remove(j))[a] == key_views(s)[a0]);
        assert(key_views(s.remove(j))[b] == key_views(s)[b0]);
    }
}

/// A new last member.
pub proof fn lemma_member_added(s: Seq<String>, x: String)
    requires
        views(s).no_duplicates(),
        !views(s).contains(x@),
    ensures
        views(s.push(x)) == views(s).push(x@),
        views(s.push(x)).no_duplicates(),
{
    assert(views(s.push(x)) =~= views(s).push(x@));
    assert forall|a: int, b: int|
        0 <= a < s.len() + 1 && 0 <= b < s.len() + 1 && a != b implies views(s.push(x))[a]
        != views(s.push(x))[b] by {
        if a < s.len() && b < s.len() {
            assert(views(s)[a] != views(s)[b]);
        } else if a < s.len() {
            assert(views(s)[a] == views(s.push(x))[a]);
        } else {
            assert(views(s)[b] == views(s.push(x))[b]);
        }
    }
}

/// The member at position `j` taken out.
pub proof fn lemma_member_taken(s: Seq<String>, j: int)
    requires
        views(s).no_duplicates(),
        0 <= j < s.len(),
    ensures
        views(s.remove(j)) == without(views(s), s[j]@),
        views(s.remove(j)).no_duplicates(),
{
    assert(views(s)[j] == s[j]@);
    lemma_index_unique(views(s), j);
    assert(views(s.remove(j)) =~= views(s).remove(j));
    assert forall|a: int, b: int|
        0 <= a < s.len() - 1 && 0 <= b < s.len() - 1 && a != b implies views(s.remove(j))[a]
        != views(s.remove(j))[b] by {
        let a0 = if a < j { a } else { a + 1 };
        let b0 = if b < j { b } else { b + 1 };
        assert(views(s.remove(j))[a] == views(s)[a0]);
        assert(views(s.remove(j))[b] == views(s)[b0]);
    }
}

/// Position of the item with the text of `x`, if there is one.
pub fn find_text(items: &Vec<String>, x: &String) -> (r: Option<usize>)
    ensures
        match r {
            Some(i) => i < items.len() && items@[i as int]@ == x@ && views(items@).contains(x@),
            None => !views(items@).contains(x@),
        },
{
    let mut i: usize = 0;
    while i < items.len()
        invariant
            i <= items.len(),
            forall|j: int| 0 <= j < i ==> (#[trigger] items@[j])@ != x@,
        decreases items.len() - i,
    {
        if items[i] == *x {
            assert(views(items@)[i as int] == x@);
            return Some(i);
        }
        i += 1;
    }
    assert(!views(items@).contains(x@)) by {
        if views(items@).contains(x@) {
            let j = choose|j: int| 0 <= j < views(items@).len() && views(items@)[j] == x@;
            assert(items@[j]@ == x@);
        }
    }
    None
}

/// The members without the later occurrences of repeated ones.
pub fn dedup_texts(items: &Vec<String>) -> (r: Vec<String>)
    ensures
        views(r@) == dedup(views(items@)),
        views(r@).no_duplicates(),
{
    let ghost all = views(items@);
    let mut out: Vec<String> = Vec::new();
    let mut i: usize = 0;
    assert(all.take(0) =~= Seq::<Seq<char>>::empty());
    assert(views(out@) =~= Seq::<Seq<char>>::empty());
    while i < items.len()
        invariant
            i <= items.len(),
            all == views(items@),
            views(out@) == dedup(all.take(i as int)),
            views(out@).no_duplicates(),
        decreases items.len() - i,
    {
        proof {
            assert(all.take(i + 1).drop_last() =~= all.take(i as int));
            assert(all.take(i + 1).last() == items@[i as int]@);
        }
        if find_text(&out, &items[i]).is_none() {
            let item = items[i].clone();
            proof {
                lemma_member_added(out@, item);
            }
            out.push(item);
        }
        i += 1;
    }
    assert(all.take(items.len() as int) =~= all);
    out
}

/// The pairs entered one after the other: a name that occurs again takes
/// the later value.
pub fn collect_pairs(pairs: &Vec<(String, String)>) -> (r: Vec<(String, String)>)
    ensures
        entry_views(r@) == collect(entry_views(pairs@)),
        distinct(r@),
{
    let ghost all = entry_views(pairs@);
    let mut out: Vec<(String, String)> = Vec::new();
    let mut i: usize = 0;
    assert(all.take(0) =~= Seq::<(Seq<char>, Seq<char>)>::empty());
    assert(entry_views(out@) =~= Seq::<(Seq<char>, Seq<char>)>::empty());
    assert(key_views(out@) =~= Seq::<Seq<char>>::empty());
    while i < pairs.len()
        invariant
            i <= pairs.len(),
            all == entry_views(pairs@),
            entry_views(out@) == collect(all.take(i as int)),
            distinct(out@),
        decreases pairs.len() - i,
    {
        proof {
            assert(all.take(i + 1).drop_last() =~= all.take(i as int));
            assert(all.take(i + 1).last() == (pairs@[i as int].0@, pairs@[i as int].1@));
        }
        put_entry(&mut out, pairs[i].0.clone(), pairs[i].1.clone());
        i += 1;
    }
    assert(all.take(pairs.len() as int) =~= all);
    out
}

/// The scored members entered one after the other: a member that occurs
/// again takes the later score.
pub fn collect_scored(pairs: &Vec<(String, Score)>) -> (r: Vec<(String, Score)>)
    ensures
        entry_views(r@) == collect(entry_views(pairs@)),
        distinct(r@),
        forall|i: int| 0 <= i < r@.len() ==> is_number((#[trigger] entry_views(r@)[i]).1.0),
{
    let ghost all = entry_views(pairs@);
    let mut out: Vec<(String, Score)> = Vec::new();
    let mut i: usize = 0;
    assert(all.take(0) =~= Seq::<(Seq<char>, (u64, Seq<char>))>::empty());
    assert(entry_views(out@) =~= Seq::<(Seq<char>, (u64, Seq<char>))>::empty());
    assert(key_views(out@) =~= Seq::<Seq<char>>::empty());
    while i < pairs.len()
        invariant
            i <= pairs.len(),
            all == entry_views(pairs@),
            entry_views(out@) == collect(all.take(i as int)),
            distinct(out@),
            forall|j: int| 0 <= j < out@.len() ==> is_number((#[trigger] out@[j]).1@.0),
        decreases pairs.len() - i,
    {
        proof {
            assert(all.take(i + 1).drop_last() =~= all.take(i as int));
            assert(all.take(i + 1).last() == (pairs@[i as int].0@, pairs@[i as int].1@));
        }
        let score = pairs[i].1.clone();
        // Reading the pattern tells that it is a number.
        let _pattern: u64 = score.bits();
        let ghost before = out@;
        put_entry(&mut out, pairs[i].0.clone(), score);
        proof {
            assert forall|j: int| 0 <= j < out@.len() implies is_number(
                (#[trigger] out@[j]).1@.0,
            ) by {
                if j < before.len() && out@[j] == before[j] {
                } else {
                    assert(out@[j].1@ == score@);
                }
            }
        }
        i += 1;
    }
    assert(all.take(pairs.len() as int) =~= all);
    out
}

/// Puts `value` under `name`: in place of the value that `name` had, or as a
/// new last pair.
pub fn put_entry<V: View>(pairs: &mut Vec<(String, V)>, name: String, value: V)
    requires
        distinct(old(pairs)@),
    ensures
        distinct(final(pairs)@),
        entry_views(final(pairs)@) == with_entry(entry_views(old(pairs)@), name@, value@),
        forall|j: int|
            0 <= j < final(pairs)@.len() ==> (j < old(pairs)@.len()
                && (#[trigger] final(pairs)@[j]) == old(pairs)@[j]) || final(pairs)@[j].1
                == value,
{
    let ghost before = pairs@;
    match position(pairs, &name) {
        Some(j) => {
            pairs[j].1 = value;
            proof {
                lemma_entry_replaced(before, pairs@, j as int);
            }
        },
        None => {
            pairs.push((name, value));
            proof {
                lemma_entry_added(before, (name, value));
            }
        },
    }
}

} // verus!
