//! The keyspace: values under string keys, expiry seconds, and the
//! operations of the protocol on them.
//!
//! The clock is the caller's: every operation takes the current second.

use vstd::prelude::*;
use vstd::string::*;
use crate::assoc::{
    as_map, distinct, key_views, lemma_dom, lemma_lookup, lemma_push, lemma_remove,
    lemma_replace, lemma_size, position,
};
use crate::carrier::{
    collect_pairs, collect_scored, dedup_texts, find_text, lemma_entry_absent,
    lemma_entry_added, lemma_entry_found, lemma_entry_replaced, lemma_entry_taken, lemma_firsts,
    lemma_member_added, lemma_member_taken,
};
use crate::model::{
    by_score, install_expiry, install_values, keys_of, lemma_evict_all_keeps_at, normalize,
    score_keys, score_within, PersistenceView, ScoreView, StorageView, Text,
};
use crate::number::format_u64;
use crate::order::{key_seq, sort_positions, sorted_order};
use crate::persistence::{LoadError, Persistence, Snapshot};
use crate::range::normalize_range;
use crate::score::{is_number, rank_of, Score};
use crate::text::{chars_of, views};
use crate::value::{entry_views, pair_views, scored_views, Kind, RedoxValue, ValueView};

verus! {

/// The keyspace.
pub struct Storage {
    data: Vec<(String, RedoxValue)>,
    expiry: Vec<(String, u64)>,
    persistence: Option<Persistence>,
}

/// The model of optional snapshot bookkeeping.
pub open spec fn persistence_view(p: Option<Persistence>) -> Option<PersistenceView> {
    match p {
        Some(p) => Some(p@),
        None => None,
    }
}

impl View for Storage {
    type V = StorageView;

    closed spec fn view(&self) -> StorageView {
        StorageView {
            data: as_map(self.data@),
            expiry: as_map(self.expiry@),
            persistence: persistence_view(self.persistence),
        }
    }
}

impl Storage {
    /// The representation invariant: no key occurs twice, every expiry
    /// second belongs to a key that has a value, and every value meets its
    /// variant's invariant.
    pub closed spec fn wf(&self) -> bool {
        &&& distinct(self.data@)
        &&& distinct(self.expiry@)
        &&& forall|i: int|
            0 <= i < self.expiry@.len() ==> key_views(self.data@).contains(
                (#[trigger] self.expiry@[i]).0@,
            )
        &&& forall|i: int| 0 <= i < self.data@.len() ==> (#[trigger] self.data@[i]).1@.wf()
    }

    /// A well-formed keyspace has a well-formed model.
    pub proof fn lemma_view_wf(&self)
        requires
            self.wf(),
        ensures
            self@.wf(),
    {
        lemma_size(self.data@);
        lemma_size(self.expiry@);
        assert forall|k: Text| self@.expiry.dom().contains(k) implies self@.data.dom().contains(
            k,
        ) by {
            lemma_dom(self.expiry@, k);
        }
        assert forall|k: Text| self@.data.dom().contains(k) implies (#[trigger] self@.data[k]).wf() by {
            lemma_dom(self.data@, k);
            let i = choose|i: int| 0 <= i < self.data@.len() && (#[trigger] self.data@[i]).0@ == k;
            lemma_lookup(self.data@, i);
        }
    }

    /// An empty keyspace.
    pub fn empty(persistence: Option<Persistence>) -> (r: Storage)
        ensures
            r.wf(),
            r@ == StorageView::empty(persistence_view(persistence)),
    {
        let r = Storage { data: Vec::new(), expiry: Vec::new(), persistence };
        assert(r@.data =~= Map::empty());
        assert(r@.expiry =~= Map::empty());
        r
    }

    /// Records that the keyspace has changed since the last snapshot.
    fn mark_dirty(&mut self)
        requires
            old(self).wf(),
        ensures
            final(self).wf(),
            final(self)@ == old(self)@.touch(),
            final(self).data == old(self).data,
            final(self).expiry == old(self).expiry,
    {
        match &mut self.persistence {
            Some(p) => {
                p.mark_dirty();
            },
            None => {},
        }
    }

    /// Position of `key` among the values.
    fn find(&self, key: &String) -> (r: Option<usize>)
        requires
            self.wf(),
        ensures
            match r {
                Some(i) => i < self.data@.len() && self.data@[i as int].0@ == key@
                    && self@.lookup(key@) == Some(self.data@[i as int].1@),
                None => self@.lookup(key@).is_none(),
            },
    {
        let r = position(&self.data, key);
        proof {
            match r {
                Some(i) => {
                    lemma_lookup(self.data@, i as int);
                },
                None => {},
            }
        }
        r
    }

    /// Takes `key` out of both maps.
    fn drop_key(&mut self, key: &String)
        requires
            old(self).wf(),
        ensures
            final(self).wf(),
            final(self)@ == old(self)@.drop_key(key@),
    {
        match position(&self.data, key) {
            Some(i) => {
                proof {
                    lemma_remove(self.data@, i as int);
                }
                self.data.remove(i);
            },
            None => {
                assert(self@.data.remove(key@) =~= self@.data);
            },
        }
        match position(&self.expiry, key) {
            Some(j) => {
                proof {
                    lemma_remove(self.expiry@, j as int);
                }
                self.expiry.remove(j);
            },
            None => {
                assert(self@.expiry.remove(key@) =~= self@.expiry);
            },
        }
        proof {
            let d0 = old(self).data@;
            let e0 = old(self).expiry@;
            assert forall|i: int| 0 <= i < self.expiry@.len() implies key_views(
                self.data@,
            ).contains((#[trigger] self.expiry@[i]).0@) by {
                let k = self.expiry@[i].0@;
                // The entry comes from the old expiry list and is not `key`.
                lemma_lookup(self.expiry@, i);
                assert(as_map(self.expiry@).dom().contains(k));
                assert(as_map(e0).remove(key@).dom().contains(k));
                lemma_dom(e0, k);
                let j = choose|j: int| 0 <= j < e0.len() && (#[trigger] e0[j]).0@ == k;
                assert(key_views(d0).contains(e0[j].0@));
                assert(as_map(d0).remove(key@).dom().contains(k));
            }
            assert forall|i: int| 0 <= i < self.data@.len() implies (#[trigger] self.data@[i]).1@.wf() by {
                let k = self.data@[i].0@;
                lemma_lookup(self.data@, i);
                assert(as_map(d0).remove(key@).dom().contains(k));
                lemma_dom(d0, k);
                let j = choose|j: int| 0 <= j < d0.len() && (#[trigger] d0[j]).0@ == k;
                lemma_lookup(d0, j);
            }
        }
        self.mark_dirty();
    }

    /// Lazy eviction: takes `key` out if its expiry second has come.
    fn evict(&mut self, key: &String, now: u64)
        requires
            old(self).wf(),
        ensures
            final(self).wf(),
            final(self)@ == old(self)@.evict(key@, now),
    {
        match position(&self.expiry, key) {
            Some(j) => {
                proof {
                    lemma_lookup(self.expiry@, j as int);
                }
                if self.expiry[j].1 <= now {
                    self.drop_key(key);
                }
            },
            None => {},
        }
    }
}

/// Number of values of the given variant among `s`.
pub open spec fn tally(s: Seq<(String, RedoxValue)>, kind: Kind) -> nat
    decreases s.len(),
{
    if s.len() == 0 {
        0
    } else {
        tally(s.drop_last(), kind) + if s.last().1@.kind() == kind {
            1nat
        } else {
            0nat
        }
    }
}

/// Counting along the list counts the keys of the map.
pub proof fn lemma_tally(s: Seq<(String, RedoxValue)>, kind: Kind)
    requires
        distinct(s),
    ensures
        keys_of(as_map(s), kind).finite(),
        keys_of(as_map(s), kind).len() == tally(s, kind),
        tally(s, kind) <= s.len(),
    decreases s.len(),
{
    if s.len() == 0 {
        assert(keys_of(as_map(s), kind) =~= Set::<Text>::empty());
    } else {
        let t = s.drop_last();
        let p = s.last();
        assert(s =~= t.push(p));
        assert(key_views(t) =~= key_views(s).drop_last());
        assert(distinct(t)) by {
            assert forall|a: int, b: int|
                0 <= a < t.len() && 0 <= b < t.len() && a != b implies key_views(t)[a]
                != key_views(t)[b] by {
                assert(key_views(s)[a] != key_views(s)[b]);
            }
        }
        assert(!key_views(t).contains(p.0@)) by {
            if key_views(t).contains(p.0@) {
                let a = choose|a: int| 0 <= a < t.len() && key_views(t)[a] == p.0@;
                assert(key_views(s)[a] == key_views(s)[s.len() - 1]);
            }
        }
        lemma_push(t, p);
        lemma_tally(t, kind);
        lemma_size(t);
        if p.1@.kind() == kind {
            assert(keys_of(as_map(s), kind) =~= keys_of(as_map(t), kind).insert(p.0@));
        } else {
            assert(keys_of(as_map(s), kind) =~= keys_of(as_map(t), kind));
        }
    }
}

/// A copy of `value`.
pub fn copy_value(value: &RedoxValue) -> (r: RedoxValue)
    ensures
        r@ == value@,
{
    match value {
        RedoxValue::String(s) => RedoxValue::String(s.clone()),
        RedoxValue::List(items) => RedoxValue::List(copy_texts(items)),
        RedoxValue::Members(members) => RedoxValue::Members(copy_texts(members)),
        RedoxValue::Hash(fields) => RedoxValue::Hash(copy_pairs(fields)),
        RedoxValue::SortedSet(members) => {
            if members.len() == 0 {
                let out: Vec<(String, Score)> = Vec::new();
                assert(scored_views(out@) =~= scored_views(members@));
                RedoxValue::SortedSet(out)
            } else {
                let out = copy_scored_range(members, 0, members.len() - 1);
                assert(scored_views(members@).subrange(0, members.len() as int) =~= scored_views(
                    members@,
                ));
                RedoxValue::SortedSet(out)
            }
        },
    }
}

/// `value` as it is installed from a snapshot: a set without repeated
/// members, a hash or a sorted set with each name once.
pub fn normalized(value: &RedoxValue) -> (r: RedoxValue)
    ensures
        r@ == normalize(value@),
        r@.wf(),
{
    match value {
        RedoxValue::String(s) => RedoxValue::String(s.clone()),
        RedoxValue::List(items) => RedoxValue::List(copy_texts(items)),
        RedoxValue::Members(members) => RedoxValue::Members(dedup_texts(members)),
        RedoxValue::Hash(fields) => {
            let out = collect_pairs(fields);
            proof {
                lemma_firsts(out@);
            }
            RedoxValue::Hash(out)
        },
        RedoxValue::SortedSet(members) => {
            let out = collect_scored(members);
            proof {
                lemma_firsts(out@);
            }
            RedoxValue::SortedSet(out)
        },
    }
}

/// The models of optional strings.
pub open spec fn answers_view(v: Seq<Option<String>>) -> Seq<Option<Text>> {
    v.map_values(|o: Option<String>| text_view(o))
}

/// The model of an optional string.
pub open spec fn text_view(o: Option<String>) -> Option<Text> {
    match o {
        Some(s) => Some(s@),
        None => None,
    }
}

/// The model of an optional list of strings.
pub open spec fn texts_view(o: Option<Vec<String>>) -> Option<Seq<Text>> {
    match o {
        Some(v) => Some(views(v@)),
        None => None,
    }
}

/// The model of optional field/value pairs.
pub open spec fn pairs_view(o: Option<Vec<(String, String)>>) -> Option<Seq<(Text, Text)>> {
    match o {
        Some(v) => Some(pair_views(v@)),
        None => None,
    }
}

/// A copy of `items`.
pub fn copy_texts(items: &Vec<String>) -> (r: Vec<String>)
    ensures
        views(r@) == views(items@),
{
    let mut out: Vec<String> = Vec::new();
    let mut i: usize = 0;
    while i < items.len()
        invariant
            i <= items.len(),
            out.len() == i,
            forall|k: int| 0 <= k < out.len() ==> (#[trigger] out@[k])@ == items@[k]@,
        decreases items.len() - i,
    {
        out.push(items[i].clone());
        i += 1;
    }
    assert(views(out@) =~= views(items@));
    out
}

/// A copy of `pairs`.
pub fn copy_pairs(pairs: &Vec<(String, String)>) -> (r: Vec<(String, String)>)
    ensures
        pair_views(r@) == pair_views(pairs@),
{
    let mut out: Vec<(String, String)> = Vec::new();
    let mut i: usize = 0;
    while i < pairs.len()
        invariant
            i <= pairs.len(),
            out.len() == i,
            forall|k: int|
                0 <= k < out.len() ==> (#[trigger] out@[k]).0@ == pairs@[k].0@ && out@[k].1@
                    == pairs@[k].1@,
        decreases pairs.len() - i,
    {
        out.push((pairs[i].0.clone(), pairs[i].1.clone()));
        i += 1;
    }
    assert(pair_views(out@) =~= pair_views(pairs@));
    out
}

/// The model of optional scored members.
pub open spec fn scored_view(o: Option<Vec<(String, Score)>>) -> Option<Seq<(Text, ScoreView)>> {
    match o {
        Some(v) => Some(scored_views(v@)),
        None => None,
    }
}

/// The scored members by ascending score, members of equal score by
/// ascending member.
pub fn sorted_scored(members: &Vec<(String, Score)>) -> (r: Vec<(String, Score)>)
    ensures
        scored_views(r@) == by_score(scored_views(members@)),
{
    let ghost model = scored_views(members@);
    let mut keys: Vec<(i64, Vec<char>)> = Vec::new();
    let mut i: usize = 0;
    while i < members.len()
        invariant
            i <= members.len(),
            model == scored_views(members@),
            keys.len() == i,
            forall|k: int| 0 <= k < i ==> key_seq(keys@)[k] == score_keys(model)[k],
        decreases members.len() - i,
    {
        let key = (rank_of(members[i].1.bits()), chars_of(members[i].0.as_str()));
        keys.push(key);
        i += 1;
    }
    assert(key_seq(keys@) =~= score_keys(model));
    let order = sort_positions(&keys);
    let ghost ranks = sorted_order(score_keys(model));
    let mut out: Vec<(String, Score)> = Vec::new();
    let mut k: usize = 0;
    while k < order.len()
        invariant
            k <= order.len(),
            order.len() == members.len(),
            model == scored_views(members@),
            ranks == order@.map_values(|i: usize| i as int),
            forall|j: int| 0 <= j < order.len() ==> #[trigger] order@[j] < members.len(),
            out.len() == k,
            forall|j: int|
                0 <= j < k ==> (#[trigger] out@[j]).0@ == members@[ranks[j]].0@ && out@[j].1@
                    == members@[ranks[j]].1@,
        decreases order.len() - k,
    {
        let at = order[k];
        assert(ranks[k as int] == at as int);
        out.push((members[at].0.clone(), members[at].1.clone()));
        k += 1;
    }
    assert(scored_views(out@) =~= by_score(model));
    out
}

/// A copy of the scored members from `first` to `last`, both included.
pub fn copy_scored_range(items: &Vec<(String, Score)>, first: usize, last: usize) -> (r: Vec<
    (String, Score),
>)
    requires
        first <= last < items.len(),
    ensures
        scored_views(r@) == scored_views(items@).subrange(first as int, last + 1),
{
    let mut out: Vec<(String, Score)> = Vec::new();
    let mut i: usize = first;
    while i <= last
        invariant
            first <= i <= last + 1,
            last < items.len(),
            out.len() == i - first,
            forall|k: int|
                0 <= k < out.len() ==> (#[trigger] out@[k]).0@ == items@[first + k].0@
                    && out@[k].1@ == items@[first + k].1@,
        decreases last + 1 - i,
    {
        out.push((items[i].0.clone(), items[i].1.clone()));
        i += 1;
    }
    assert(scored_views(out@) =~= scored_views(items@).subrange(first as int, last + 1));
    out
}

/// The scored members whose score lies between `min` and `max`, both
/// included, in their order.
pub fn copy_scored_within(items: &Vec<(String, Score)>, min: &Score, max: &Score) -> (r: Vec<
    (String, Score),
>)
    ensures
        scored_views(r@) == scored_views(items@).filter(
            |p: (Text, ScoreView)| score_within(p.1, min@, max@),
        ),
{
    let ghost model = scored_views(items@);
    let ghost pred = |p: (Text, ScoreView)| score_within(p.1, min@, max@);
    let mut out: Vec<(String, Score)> = Vec::new();
    let mut i: usize = 0;
    proof {
        reveal(Seq::filter);
        assert(model.take(0).filter(pred) =~= Seq::<(Text, ScoreView)>::empty());
        assert(scored_views(out@) =~= Seq::<(Text, ScoreView)>::empty());
    }
    while i < items.len()
        invariant
            i <= items.len(),
            model == scored_views(items@),
            pred == |p: (Text, ScoreView)| score_within(p.1, min@, max@),
            scored_views(out@) == model.take(i as int).filter(pred),
        decreases items.len() - i,
    {
        let ghost before = scored_views(out@);
        let inside = min.at_most(&items[i].1) && items[i].1.at_most(max);
        if inside {
            out.push((items[i].0.clone(), items[i].1.clone()));
        }
        proof {
            reveal(Seq::filter);
            assert(model.take(i + 1).drop_last() =~= model.take(i as int));
            assert(model.take(i + 1).last() == model[i as int]);
            assert(inside == pred(model[i as int]));
            if inside {
                assert(scored_views(out@) =~= before.push(model[i as int]));
            }
        }
        i += 1;
    }
    assert(model.take(items.len() as int) =~= model);
    out
}

/// A copy of the items from `first` to `last`, both included.
pub fn copy_range(items: &Vec<String>, first: usize, last: usize) -> (r: Vec<String>)
    requires
        first <= last < items.len(),
    ensures
        views(r@) == views(items@).subrange(first as int, last + 1),
{
    let mut out: Vec<String> = Vec::new();
    let mut i: usize = first;
    while i <= last
        invariant
            first <= i <= last + 1,
            last < items.len(),
            out.len() == i - first,
            forall|k: int| 0 <= k < out.len() ==> (#[trigger] out@[k])@ == items@[first + k]@,
        decreases last + 1 - i,
    {
        out.push(items[i].clone());
        i += 1;
    }
    assert(views(out@) =~= views(items@).subrange(first as int, last + 1));
    out
}

impl Storage {
    /// What an in-place change of the value at position `i` does to the
    /// model.
    proof fn lemma_modified(before: &Storage, after: &Storage, i: int)
        requires
            before.wf(),
            0 <= i < before.data@.len(),
            after.data@.len() == before.data@.len(),
            after.data@[i].0@ == before.data@[i].0@,
            forall|j: int| 0 <= j < before.data@.len() && j != i ==> after.data@[j] == before.data@[j],
            after.expiry == before.expiry,
            after.persistence == before.persistence,
            after.data@[i].1@.wf(),
        ensures
            after.wf(),
            after@ == (StorageView {
                data: before@.data.insert(before.data@[i].0@, after.data@[i].1@),
                ..before@
            }),
    {
        lemma_replace(before.data@, after.data@, i);
        assert(key_views(after.data@) =~= key_views(before.data@)) by {
            assert forall|j: int| 0 <= j < before.data@.len() implies key_views(after.data@)[j]
                == key_views(before.data@)[j] by {
                if j != i {
                    assert(after.data@[j] == before.data@[j]);
                }
            }
        }
        assert forall|j: int| 0 <= j < after.data@.len() implies (#[trigger] after.data@[j]).1@.wf() by {
            if j != i {
                assert(after.data@[j] == before.data@[j]);
            }
        }
    }

    /// What a new last pair does to the model.
    proof fn lemma_appended(before: &Storage, after: &Storage)
        requires
            before.wf(),
            after.data@.len() == before.data@.len() + 1,
            after.data@.drop_last() == before.data@,
            !key_views(before.data@).contains(after.data@.last().0@),
            after.data@.last().1@.wf(),
            after.expiry == before.expiry,
            after.persistence == before.persistence,
        ensures
            after.wf(),
            after@ == (StorageView {
                data: before@.data.insert(after.data@.last().0@, after.data@.last().1@),
                ..before@
            }),
    {
        let p = after.data@.last();
        assert(after.data@ =~= before.data@.push(p));
        lemma_push(before.data@, p);
        assert forall|i: int| 0 <= i < after.expiry@.len() implies key_views(
            after.data@,
        ).contains((#[trigger] after.expiry@[i]).0@) by {
            let k = after.expiry@[i].0@;
            assert(key_views(before.data@).contains(k));
            let j = choose|j: int|
                0 <= j < key_views(before.data@).len() && key_views(before.data@)[j] == k;
            assert(key_views(after.data@)[j] == k);
        }
        assert forall|j: int| 0 <= j < after.data@.len() implies (#[trigger] after.data@[j]).1@.wf() by {
            if j < before.data@.len() {
                assert(after.data@[j] == before.data@[j]);
            }
        }
    }

    /// Puts `value` under `key`.
    fn place(&mut self, key: String, value: RedoxValue)
        requires
            old(self).wf(),
            value@.wf(),
        ensures
            final(self).wf(),
            final(self)@ == (StorageView {
                data: old(self)@.data.insert(key@, value@),
                ..old(self)@
            }),
            final(self).expiry == old(self).expiry,
            final(self).persistence == old(self).persistence,
    {
        match position(&self.data, &key) {
            Some(i) => {
                self.data[i].1 = value;
                proof {
                    Storage::lemma_modified(old(self), self, i as int);
                }
            },
            None => {
                self.data.push((key, value));
                proof {
                    assert(self.data@.drop_last() =~= old(self).data@);
                    Storage::lemma_appended(old(self), self);
                }
            },
        }
    }

    /// Puts `value` under `key`, which lazy eviction has treated already,
    /// and records the change.
    fn store(&mut self, key: String, value: RedoxValue)
        requires
            old(self).wf(),
            value@.wf(),
        ensures
            final(self).wf(),
            final(self)@ == old(self)@.store(key@, value@),
    {
        self.place(key, value);
        self.mark_dirty();
    }

    /// Puts the expiry second `expires` under `key`, which holds a value.
    fn put_expiry(&mut self, key: String, expires: u64)
        requires
            old(self).wf(),
            old(self)@.data.dom().contains(key@),
        ensures
            final(self).wf(),
            final(self)@ == (StorageView {
                expiry: old(self)@.expiry.insert(key@, expires),
                ..old(self)@
            }),
            final(self).data == old(self).data,
            final(self).persistence == old(self).persistence,
    {
        let ghost mid = *self;
        match position(&self.expiry, &key) {
            Some(j) => {
                self.expiry[j].1 = expires;
                proof {
                    lemma_lookup(mid.expiry@, j as int);
                    lemma_replace(mid.expiry@, self.expiry@, j as int);
                    assert(key_views(self.expiry@) =~= key_views(mid.expiry@)) by {
                        assert forall|a: int| 0 <= a < mid.expiry@.len() implies key_views(
                            self.expiry@,
                        )[a] == key_views(mid.expiry@)[a] by {
                            if a != j {
                                assert(self.expiry@[a] == mid.expiry@[a]);
                            }
                        }
                    }
                    assert forall|a: int| 0 <= a < self.expiry@.len() implies key_views(
                        self.data@,
                    ).contains((#[trigger] self.expiry@[a]).0@) by {
                        assert(key_views(self.expiry@)[a] == key_views(mid.expiry@)[a]);
                        assert(key_views(mid.data@).contains(mid.expiry@[a].0@));
                    }
                }
            },
            None => {
                self.expiry.push((key, expires));
                proof {
                    lemma_push(mid.expiry@, (key, expires));
                    assert forall|a: int| 0 <= a < self.expiry@.len() implies key_views(
                        self.data@,
                    ).contains((#[trigger] self.expiry@[a]).0@) by {
                        if a < mid.expiry@.len() {
                            assert(self.expiry@[a] == mid.expiry@[a]);
                        } else {
                            lemma_dom(mid.data@, key@);
                        }
                    }
                }
            },
        }
    }

    /// `SET`: puts the string `value` under `key`, whatever `key` held.
    pub fn set_string(&mut self, key: String, value: String, now: u64)
        requires
            old(self).wf(),
        ensures
            final(self).wf(),
            final(self)@ == old(self)@.set_string(key@, value@, now),
    {
        self.evict(&key, now);
        self.store(key, RedoxValue::String(value));
    }

    /// `GET`: the string under `key`; `None` where `key` holds no string.
    pub fn get_string(&mut self, key: &str, now: u64) -> (r: Option<String>)
        requires
            old(self).wf(),
        ensures
            final(self).wf(),
            final(self)@ == old(self)@.evict(key@, now),
            text_view(r) == old(self)@.get_string(key@, now),
    {
        let key = String::from_str(key);
        self.evict(&key, now);
        match self.find(&key) {
            Some(i) => match &self.data[i].1 {
                RedoxValue::String(s) => Some(s.clone()),
                _ => None,
            },
            None => None,
        }
    }

    /// `LPUSH`: enters `value` before the first item of the list under
    /// `key`, creating the list where `key` holds nothing. Returns the
    /// list's new length, 0 where `key` holds another variant.
    pub fn lpush(&mut self, key: String, value: String, now: u64) -> (r: usize)
        requires
            old(self).wf(),
        ensures
            final(self).wf(),
            final(self)@ == old(self)@.lpush(key@, value@, now),
            r == old(self)@.push_len(key@, now),
    {
        self.evict(&key, now);
        let ghost mid = *self;
        match self.find(&key) {
            Some(i) => {
                if !self.data[i].1.is_list() {
                    return 0;
                }
                let n = match &mut self.data[i].1 {
                    RedoxValue::List(items) => {
                        items.insert(0, value);
                        items.len()
                    },
                    _ => 0,
                };
                proof {
                    assert(views(self.data@[i as int].1->List_0@) =~= seq![value@] + views(
                        mid.data@[i as int].1->List_0@,
                    ));
                    Storage::lemma_modified(&mid, self, i as int);
                }
                self.mark_dirty();
                n
            },
            None => {
                let mut items: Vec<String> = Vec::new();
                items.push(value);
                assert(views(items@) =~= seq![value@] + Seq::<Text>::empty());
                self.store(key, RedoxValue::List(items));
                1
            },
        }
    }

    /// `RPUSH`: enters `value` behind the last item of the list under `key`,
    /// creating the list where `key` holds nothing. Returns the list's new
    /// length, 0 where `key` holds another variant.
    pub fn rpush(&mut self, key: String, value: String, now: u64) -> (r: usize)
        requires
            old(self).wf(),
        ensures
            final(self).wf(),
            final(self)@ == old(self)@.rpush(key@, value@, now),
            r == old(self)@.push_len(key@, now),
    {
        self.evict(&key, now);
        let ghost mid = *self;
        match self.find(&key) {
            Some(i) => {
                if !self.data[i].1.is_list() {
                    return 0;
                }
                let n = match &mut self.data[i].1 {
                    RedoxValue::List(items) => {
                        items.push(value);
                        items.len()
                    },
                    _ => 0,
                };
                proof {
                    assert(views(self.data@[i as int].1->List_0@) =~= views(
                        mid.data@[i as int].1->List_0@,
                    ).push(value@));
                    Storage::lemma_modified(&mid, self, i as int);
                }
                self.mark_dirty();
                n
            },
            None => {
                let mut items: Vec<String> = Vec::new();
                items.push(value);
                assert(views(items@) =~= Seq::<Text>::empty().push(value@));
                self.store(key, RedoxValue::List(items));
                1
            },
        }
    }

    /// `LPOP`: takes the item at the first position out of the list under
    /// `key` and returns it; `None` where `key` holds no list or an empty
    /// one.
    pub fn lpop(&mut self, key: &str, now: u64) -> (r: Option<String>)
        requires
            old(self).wf(),
        ensures
            final(self).wf(),
            final(self)@ == old(self)@.lpop(key@, now),
            text_view(r) == old(self)@.lpop_result(key@, now),
    {
        let key = String::from_str(key);
        self.evict(&key, now);
        let ghost mid = *self;
        match self.find(&key) {
            Some(i) => {
                let poppable = match &self.data[i].1 {
                    RedoxValue::List(items) => items.len() > 0,
                    _ => false,
                };
                if !poppable {
                    return None;
                }
                let item = match &mut self.data[i].1 {
                    RedoxValue::List(items) => Some(items.remove(0)),
                    _ => None,
                };
                proof {
                    assert(views(self.data@[i as int].1->List_0@) =~= views(
                        mid.data@[i as int].1->List_0@,
                    ).drop_first());
                    Storage::lemma_modified(&mid, self, i as int);
                }
                self.mark_dirty();
                item
            },
            None => None,
        }
    }

    /// `RPOP`: takes the item at the last position out of the list under
    /// `key` and returns it; `None` where `key` holds no list or an empty
    /// one.
    pub fn rpop(&mut self, key: &str, now: u64) -> (r: Option<String>)
        requires
            old(self).wf(),
        ensures
            final(self).wf(),
            final(self)@ == old(self)@.rpop(key@, now),
            text_view(r) == old(self)@.rpop_result(key@, now),
    {
        let key = String::from_str(key);
        self.evict(&key, now);
        let ghost mid = *self;
        match self.find(&key) {
            Some(i) => {
                let poppable = match &self.data[i].1 {
                    RedoxValue::List(items) => items.len() > 0,
                    _ => false,
                };
                if !poppable {
                    return None;
                }
                let item = match &mut self.data[i].1 {
                    RedoxValue::List(items) => items.pop(),
                    _ => None,
                };
                proof {
                    assert(views(self.data@[i as int].1->List_0@) =~= views(
                        mid.data@[i as int].1->List_0@,
                    ).drop_last());
                    Storage::lemma_modified(&mid, self, i as int);
                }
                self.mark_dirty();
                item
            },
            None => None,
        }
    }

    /// `LRANGE`: the items of the list under `key` from `start` to `stop`,
    /// both included, either counted from the end if negative; `None` where
    /// `key` holds no list.
    pub fn lrange(&mut self, key: &str, start: i64, stop: i64, now: u64) -> (r: Option<
        Vec<String>,
    >)
        requires
            old(self).wf(),
        ensures
            final(self).wf(),
            final(self)@ == old(self)@.evict(key@, now),
            texts_view(r) == old(self)@.lrange(key@, start as int, stop as int, now),
    {
        let key = String::from_str(key);
        self.evict(&key, now);
        match self.find(&key) {
            Some(i) => match &self.data[i].1 {
                RedoxValue::List(items) => match normalize_range(start, stop, items.len()) {
                    Some((first, last)) => Some(copy_range(items, first, last)),
                    None => {
                        let out: Vec<String> = Vec::new();
                        assert(views(out@) =~= Seq::<Text>::empty());
                        Some(out)
                    },
                },
                _ => None,
            },
            None => None,
        }
    }

    /// `SADD`: enters `member` into the set under `key`, creating the set
    /// where `key` holds nothing. Returns whether the member was added: not
    /// where it was in the set already, nor where `key` holds another
    /// variant.
    pub fn sadd(&mut self, key: String, member: String, now: u64) -> (r: bool)
        requires
            old(self).wf(),
        ensures
            final(self).wf(),
            final(self)@ == old(self)@.sadd(key@, member@, now),
            r == old(self)@.sadd_adds(key@, member@, now),
    {
        self.evict(&key, now);
        let ghost mid = *self;
        match self.find(&key) {
            Some(i) => {
                let addable = match &self.data[i].1 {
                    RedoxValue::Members(members) => find_text(members, &member).is_none(),
                    _ => false,
                };
                if !addable {
                    return false;
                }
                match &mut self.data[i].1 {
                    RedoxValue::Members(members) => {
                        members.push(member);
                    },
                    _ => {},
                }
                proof {
                    lemma_member_added(mid.data@[i as int].1->Members_0@, member);
                    Storage::lemma_modified(&mid, self, i as int);
                }
                self.mark_dirty();
                true
            },
            None => {
                let mut members: Vec<String> = Vec::new();
                members.push(member);
                proof {
                    lemma_member_added(Seq::<String>::empty(), member);
                    assert(members@ =~= Seq::<String>::empty().push(member));
                    assert(views(Seq::<String>::empty()) =~= Seq::<Text>::empty());
                }
                self.store(key, RedoxValue::Members(members));
                true
            },
        }
    }

    /// `SREM`: takes `member` out of the set under `key`. Returns whether it
    /// was in the set.
    pub fn srem(&mut self, key: &str, member: &str, now: u64) -> (r: bool)
        requires
            old(self).wf(),
        ensures
            final(self).wf(),
            final(self)@ == old(self)@.srem(key@, member@, now),
            r == old(self)@.sismember(key@, member@, now),
    {
        let key = String::from_str(key);
        let member = String::from_str(member);
        self.evict(&key, now);
        let ghost mid = *self;
        match self.find(&key) {
            Some(i) => {
                let found = match &self.data[i].1 {
                    RedoxValue::Members(members) => find_text(members, &member),
                    _ => None,
                };
                match found {
                    Some(j) => {
                        match &mut self.data[i].1 {
                            RedoxValue::Members(members) => {
                                members.remove(j);
                            },
                            _ => {},
                        }
                        proof {
                            lemma_member_taken(mid.data@[i as int].1->Members_0@, j as int);
                            Storage::lemma_modified(&mid, self, i as int);
                        }
                        self.mark_dirty();
                        true
                    },
                    None => false,
                }
            },
            None => false,
        }
    }

    /// `SMEMBERS`: the members of the set under `key`, in the order in which
    /// they were added; `None` where `key` holds no set.
    pub fn smembers(&mut self, key: &str, now: u64) -> (r: Option<Vec<String>>)
        requires
            old(self).wf(),
        ensures
            final(self).wf(),
            final(self)@ == old(self)@.evict(key@, now),
            texts_view(r) == old(self)@.members_at(key@, now),
    {
        let key = String::from_str(key);
        self.evict(&key, now);
        match self.find(&key) {
            Some(i) => match &self.data[i].1 {
                RedoxValue::Members(members) => Some(copy_texts(members)),
                _ => None,
            },
            None => None,
        }
    }

    /// `SISMEMBER`: whether `member` is in the set under `key`.
    pub fn sismember(&mut self, key: &str, member: &str, now: u64) -> (r: bool)
        requires
            old(self).wf(),
        ensures
            final(self).wf(),
            final(self)@ == old(self)@.evict(key@, now),
            r == old(self)@.sismember(key@, member@, now),
    {
        let key = String::from_str(key);
        let member = String::from_str(member);
        self.evict(&key, now);
        match self.find(&key) {
            Some(i) => match &self.data[i].1 {
                RedoxValue::Members(members) => find_text(members, &member).is_some(),
                _ => false,
            },
            None => false,
        }
    }

    /// `HSET`: puts `value` under `field` in the hash under `key`, creating
    /// the hash where `key` holds nothing. Returns whether the field was
    /// created: not where it existed, whose value is replaced, nor where
    /// `key` holds another variant.
    pub fn hset(&mut self, key: String, field: String, value: String, now: u64) -> (r: bool)
        requires
            old(self).wf(),
        ensures
            final(self).wf(),
            final(self)@ == old(self)@.hset(key@, field@, value@, now),
            r == old(self)@.hset_creates(key@, field@, now),
    {
        self.evict(&key, now);
        let ghost mid = *self;
        match self.find(&key) {
            Some(i) => {
                if !self.data[i].1.is_hash() {
                    return false;
                }
                let created = match &mut self.data[i].1 {
                    RedoxValue::Hash(fields) => {
                        let ghost before = fields@;
                        proof {
                            lemma_firsts(before);
                            assert(mid.data@[i as int].1@.wf());
                        }
                        match position(fields, &field) {
                            Some(j) => {
                                fields[j].1 = value;
                                proof {
                                    lemma_entry_replaced(before, fields@, j as int);
                                    lemma_entry_found(before, j as int);
                                    lemma_firsts(fields@);
                                }
                                false
                            },
                            None => {
                                fields.push((field, value));
                                proof {
                                    lemma_entry_added(before, (field, value));
                                    lemma_entry_absent(before, field@);
                                    lemma_firsts(fields@);
                                }
                                true
                            },
                        }
                    },
                    _ => false,
                };
                proof {
                    Storage::lemma_modified(&mid, self, i as int);
                }
                self.mark_dirty();
                created
            },
            None => {
                let mut fields: Vec<(String, String)> = Vec::new();
                fields.push((field, value));
                proof {
                    let none = Seq::<(String, String)>::empty();
                    assert(key_views(none) =~= Seq::<Text>::empty());
                    lemma_entry_added(none, (field, value));
                    lemma_entry_absent(none, field@);
                    assert(fields@ =~= none.push((field, value)));
                    assert(entry_views(none) =~= Seq::<(Text, Text)>::empty());
                    lemma_firsts(fields@);
                }
                self.store(key, RedoxValue::Hash(fields));
                true
            },
        }
    }

    /// `HGET`: the value under `field` in the hash under `key`; `None` where
    /// there is none.
    pub fn hget(&mut self, key: &str, field: &str, now: u64) -> (r: Option<String>)
        requires
            old(self).wf(),
        ensures
            final(self).wf(),
            final(self)@ == old(self)@.evict(key@, now),
            text_view(r) == old(self)@.hget(key@, field@, now),
    {
        let key = String::from_str(key);
        let field = String::from_str(field);
        self.evict(&key, now);
        match self.find(&key) {
            Some(i) => match &self.data[i].1 {
                RedoxValue::Hash(fields) => match position(fields, &field) {
                    Some(j) => {
                        proof {
                            lemma_firsts(fields@);
                            lemma_entry_found(fields@, j as int);
                        }
                        Some(fields[j].1.clone())
                    },
                    None => {
                        proof {
                            lemma_entry_absent(fields@, field@);
                        }
                        None
                    },
                },
                _ => None,
            },
            None => None,
        }
    }

    /// `HDEL`: takes `field` out of the hash under `key`. Returns whether it
    /// was there.
    pub fn hdel(&mut self, key: &str, field: &str, now: u64) -> (r: bool)
        requires
            old(self).wf(),
        ensures
            final(self).wf(),
            final(self)@ == old(self)@.hdel(key@, field@, now),
            r == old(self)@.hdel_removes(key@, field@, now),
    {
        let key = String::from_str(key);
        let field = String::from_str(field);
        self.evict(&key, now);
        let ghost mid = *self;
        match self.find(&key) {
            Some(i) => {
                let found = match &self.data[i].1 {
                    RedoxValue::Hash(fields) => {
                        let found = position(fields, &field);
                        proof {
                            lemma_firsts(fields@);
                            match found {
                                Some(j) => {
                                    lemma_entry_found(fields@, j as int);
                                },
                                None => {
                                    lemma_entry_absent(fields@, field@);
                                },
                            }
                        }
                        found
                    },
                    _ => None,
                };
                match found {
                    Some(j) => {
                        match &mut self.data[i].1 {
                            RedoxValue::Hash(fields) => {
                                fields.remove(j);
                            },
                            _ => {},
                        }
                        proof {
                            lemma_entry_taken(mid.data@[i as int].1->Hash_0@, j as int);
                            lemma_firsts(self.data@[i as int].1->Hash_0@);
                            Storage::lemma_modified(&mid, self, i as int);
                        }
                        self.mark_dirty();
                        true
                    },
                    None => false,
                }
            },
            None => false,
        }
    }

    /// `HGETALL`: the fields of the hash under `key` with their values, in
    /// the order in which the fields were created; `None` where `key` holds
    /// no hash.
    pub fn hgetall(&mut self, key: &str, now: u64) -> (r: Option<Vec<(String, String)>>)
        requires
            old(self).wf(),
        ensures
            final(self).wf(),
            final(self)@ == old(self)@.evict(key@, now),
            pairs_view(r) == old(self)@.fields_at(key@, now),
    {
        let key = String::from_str(key);
        self.evict(&key, now);
        match self.find(&key) {
            Some(i) => match &self.data[i].1 {
                RedoxValue::Hash(fields) => Some(copy_pairs(fields)),
                _ => None,
            },
            None => None,
        }
    }

    /// `ZADD`: enters `member` with `score` into the sorted set under `key`,
    /// creating the sorted set where `key` holds nothing. Returns whether the
    /// member was added: not where it existed, whose score is replaced, nor
    /// where `key` holds another variant.
    pub fn zadd(&mut self, key: String, score: Score, member: String, now: u64) -> (r: bool)
        requires
            old(self).wf(),
        ensures
            final(self).wf(),
            final(self)@ == old(self)@.zadd(key@, score@, member@, now),
            r == old(self)@.zadd_adds(key@, member@, now),
    {
        self.evict(&key, now);
        let ghost mid = *self;
        // Reading the pattern tells that it is a number.
        let _pattern: u64 = score.bits();
        match self.find(&key) {
            Some(i) => {
                if !self.data[i].1.is_sorted_set() {
                    return false;
                }
                let added = match &mut self.data[i].1 {
                    RedoxValue::SortedSet(members) => {
                        let ghost before = members@;
                        proof {
                            lemma_firsts(before);
                            assert(mid.data@[i as int].1@.wf());
                        }
                        match position(members, &member) {
                            Some(j) => {
                                members[j].1 = score;
                                proof {
                                    lemma_entry_replaced(before, members@, j as int);
                                    lemma_entry_found(before, j as int);
                                    lemma_firsts(members@);
                                    assert forall|a: int|
                                        0 <= a < members@.len() implies is_number(
                                        (#[trigger] entry_views(members@)[a]).1.0,
                                    ) by {
                                        if a != j {
                                            assert(members@[a] == before[a]);
                                            assert(is_number(entry_views(before)[a].1.0));
                                        }
                                    }
                                }
                                false
                            },
                            None => {
                                members.push((member, score));
                                proof {
                                    lemma_entry_added(before, (member, score));
                                    lemma_entry_absent(before, member@);
                                    lemma_firsts(members@);
                                    assert forall|a: int|
                                        0 <= a < members@.len() implies is_number(
                                        (#[trigger] entry_views(members@)[a]).1.0,
                                    ) by {
                                        if a < before.len() {
                                            assert(members@[a] == before[a]);
                                            assert(is_number(entry_views(before)[a].1.0));
                                        }
                                    }
                                }
                                true
                            },
                        }
                    },
                    _ => false,
                };
                proof {
                    Storage::lemma_modified(&mid, self, i as int);
                }
                self.mark_dirty();
                added
            },
            None => {
                let mut members: Vec<(String, Score)> = Vec::new();
                members.push((member, score));
                proof {
                    let none = Seq::<(String, Score)>::empty();
                    assert(key_views(none) =~= Seq::<Text>::empty());
                    lemma_entry_added(none, (member, score));
                    lemma_entry_absent(none, member@);
                    assert(members@ =~= none.push((member, score)));
                    assert(entry_views(none) =~= Seq::<(Text, ScoreView)>::empty());
                    lemma_firsts(members@);
                }
                self.store(key, RedoxValue::SortedSet(members));
                true
            },
        }
    }

    /// `ZREM`: takes `member` out of the sorted set under `key`. Returns
    /// whether it was there.
    pub fn zrem(&mut self, key: &str, member: &str, now: u64) -> (r: bool)
        requires
            old(self).wf(),
        ensures
            final(self).wf(),
            final(self)@ == old(self)@.zrem(key@, member@, now),
            r == old(self)@.zrem_removes(key@, member@, now),
    {
        let key = String::from_str(key);
        let member = String::from_str(member);
        self.evict(&key, now);
        let ghost mid = *self;
        match self.find(&key) {
            Some(i) => {
                let found = match &self.data[i].1 {
                    RedoxValue::SortedSet(members) => {
                        let found = position(members, &member);
                        proof {
                            lemma_firsts(members@);
                            match found {
                                Some(j) => {
                                    lemma_entry_found(members@, j as int);
                                },
                                None => {
                                    lemma_entry_absent(members@, member@);
                                },
                            }
                        }
                        found
                    },
                    _ => None,
                };
                match found {
                    Some(j) => {
                        match &mut self.data[i].1 {
                            RedoxValue::SortedSet(members) => {
                                members.remove(j);
                            },
                            _ => {},
                        }
                        proof {
                            let before = mid.data@[i as int].1->SortedSet_0@;
                            let after = self.data@[i as int].1->SortedSet_0@;
                            lemma_entry_taken(before, j as int);
                            lemma_firsts(after);
                            assert forall|a: int| 0 <= a < after.len() implies is_number(
                                (#[trigger] entry_views(after)[a]).1.0,
                            ) by {
                                let a0 = if a < j { a } else { a + 1 };
                                assert(after[a] == before[a0]);
                                assert(is_number(entry_views(before)[a0].1.0));
                            }
                            Storage::lemma_modified(&mid, self, i as int);
                        }
                        self.mark_dirty();
                        true
                    },
                    None => false,
                }
            },
            None => false,
        }
    }

    /// `ZRANGE`: the members of the sorted set under `key` with their
    /// scores, by ascending score and, among equal scores, ascending member,
    /// from position `start` to position `stop` of that order, both
    /// included, either counted from the end if negative; `None` where `key`
    /// holds no sorted set.
    pub fn zrange(&mut self, key: &str, start: i64, stop: i64, now: u64) -> (r: Option<
        Vec<(String, Score)>,
    >)
        requires
            old(self).wf(),
        ensures
            final(self).wf(),
            final(self)@ == old(self)@.evict(key@, now),
            scored_view(r) == old(self)@.zrange(key@, start as int, stop as int, now),
    {
        let key = String::from_str(key);
        self.evict(&key, now);
        match self.find(&key) {
            Some(i) => match &self.data[i].1 {
                RedoxValue::SortedSet(members) => {
                    let sorted = sorted_scored(members);
                    match normalize_range(start, stop, sorted.len()) {
                        Some((first, last)) => Some(copy_scored_range(&sorted, first, last)),
                        None => {
                            let out: Vec<(String, Score)> = Vec::new();
                            assert(scored_views(out@) =~= Seq::<(Text, ScoreView)>::empty());
                            Some(out)
                        },
                    }
                },
                _ => None,
            },
            None => None,
        }
    }

    /// `ZRANGEBYSCORE`: the members of the sorted set under `key` whose
    /// score lies between `min` and `max`, both included, with their scores,
    /// by ascending score and, among equal scores, ascending member; `None`
    /// where `key` holds no sorted set.
    pub fn zrangebyscore(&mut self, key: &str, min: &Score, max: &Score, now: u64) -> (r: Option<
        Vec<(String, Score)>,
    >)
        requires
            old(self).wf(),
        ensures
            final(self).wf(),
            final(self)@ == old(self)@.evict(key@, now),
            scored_view(r) == old(self)@.zrangebyscore(key@, min@, max@, now),
    {
        let key = String::from_str(key);
        self.evict(&key, now);
        match self.find(&key) {
            Some(i) => match &self.data[i].1 {
                RedoxValue::SortedSet(members) => {
                    let sorted = sorted_scored(members);
                    Some(copy_scored_within(&sorted, min, max))
                },
                _ => None,
            },
            None => None,
        }
    }

    /// `MSET`: puts each string under its key, in order. Returns the number
    /// of pairs.
    pub fn mset(&mut self, pairs: Vec<(String, String)>, now: u64) -> (r: usize)
        requires
            old(self).wf(),
        ensures
            final(self).wf(),
            final(self)@ == old(self)@.mset(pair_views(pairs@), now),
            r == pairs.len(),
    {
        let ghost model = pair_views(pairs@);
        let mut i: usize = 0;
        assert(model.take(0) =~= Seq::<(Text, Text)>::empty());
        while i < pairs.len()
            invariant
                i <= pairs.len(),
                model == pair_views(pairs@),
                self.wf(),
                self@ == old(self)@.mset(model.take(i as int), now),
            decreases pairs.len() - i,
        {
            proof {
                assert(model.take(i + 1).drop_last() =~= model.take(i as int));
                assert(model.take(i + 1).last() == (pairs@[i as int].0@, pairs@[i as int].1@));
            }
            self.set_string(pairs[i].0.clone(), pairs[i].1.clone(), now);
            i += 1;
        }
        assert(model.take(pairs.len() as int) =~= model);
        pairs.len()
    }

    /// `MGET`: for each key the string under it, `None` where it holds no
    /// string.
    pub fn mget(&mut self, keys: &Vec<String>, now: u64) -> (r: Vec<Option<String>>)
        requires
            old(self).wf(),
        ensures
            final(self).wf(),
            final(self)@ == old(self)@.evict_all(views(keys@), now),
            answers_view(r@) == old(self)@.mget(views(keys@), now),
    {
        let ghost names = views(keys@);
        let mut out: Vec<Option<String>> = Vec::new();
        let mut i: usize = 0;
        assert(names.take(0) =~= Seq::<Text>::empty());
        while i < keys.len()
            invariant
                i <= keys.len(),
                names == views(keys@),
                self.wf(),
                self@ == old(self)@.evict_all(names.take(i as int), now),
                out.len() == i,
                forall|j: int|
                    0 <= j < i ==> text_view(#[trigger] out@[j]) == old(self)@.get_string(
                        names[j],
                        now,
                    ),
            decreases keys.len() - i,
        {
            proof {
                assert(names.take(i + 1).drop_last() =~= names.take(i as int));
                assert(names.take(i + 1).last() == keys@[i as int]@);
                lemma_evict_all_keeps_at(old(self)@, names.take(i as int), names[i as int], now);
            }
            let found = self.get_string(keys[i].as_str(), now);
            out.push(found);
            i += 1;
        }
        assert(names.take(keys.len() as int) =~= names);
        assert(answers_view(out@) =~= old(self)@.mget(names, now));
        out
    }

    /// `DEL`: takes each key out, with its expiry second. Returns how many
    /// of them were observable when their turn came.
    pub fn del(&mut self, keys: &Vec<String>, now: u64) -> (r: usize)
        requires
            old(self).wf(),
        ensures
            final(self).wf(),
            final(self)@ == old(self)@.del(views(keys@), now),
            r == old(self)@.del_count(views(keys@), now),
    {
        let ghost names = views(keys@);
        let mut count: usize = 0;
        let mut i: usize = 0;
        assert(names.take(0) =~= Seq::<Text>::empty());
        while i < keys.len()
            invariant
                i <= keys.len(),
                names == views(keys@),
                self.wf(),
                self@ == old(self)@.del(names.take(i as int), now),
                count == old(self)@.del_count(names.take(i as int), now),
                count <= i,
            decreases keys.len() - i,
        {
            proof {
                assert(names.take(i + 1).drop_last() =~= names.take(i as int));
                assert(names.take(i + 1).last() == keys@[i as int]@);
            }
            self.evict(&keys[i], now);
            if self.find(&keys[i]).is_some() {
                self.drop_key(&keys[i]);
                count += 1;
            }
            i += 1;
        }
        assert(names.take(keys.len() as int) =~= names);
        count
    }

    /// `EXPIRE`: lets `key` expire `seconds` from `now`. Returns whether
    /// `key` holds a value.
    pub fn expire(&mut self, key: &str, seconds: u64, now: u64) -> (r: bool)
        requires
            old(self).wf(),
            now + seconds <= u64::MAX,
        ensures
            final(self).wf(),
            final(self)@ == old(self)@.expire(key@, seconds, now),
            r == old(self)@.live(key@, now),
    {
        let key = String::from_str(key);
        self.evict(&key, now);
        if self.find(&key).is_none() {
            return false;
        }
        self.put_expiry(key, now + seconds);
        self.mark_dirty();
        true
    }

    /// `TTL`: seconds until `key` expires, capped at the largest `i64`; -1
    /// if its expiry second has come; `None` if it has none.
    pub fn ttl(&self, key: &str, now: u64) -> (r: Option<i64>)
        requires
            self.wf(),
        ensures
            r == self@.ttl(key@, now),
    {
        let key = String::from_str(key);
        match position(&self.expiry, &key) {
            Some(j) => {
                proof {
                    lemma_lookup(self.expiry@, j as int);
                }
                let expires = self.expiry[j].1;
                if expires <= now {
                    Some(-1)
                } else if expires - now > 0x7fff_ffff_ffff_ffff {
                    Some(i64::MAX)
                } else {
                    Some((expires - now) as i64)
                }
            },
            None => None,
        }
    }

    /// `PERSIST`: clears the expiry second of `key`. Returns whether there
    /// was one to clear.
    pub fn persist(&mut self, key: &str, now: u64) -> (r: bool)
        requires
            old(self).wf(),
        ensures
            final(self).wf(),
            final(self)@ == old(self)@.persist(key@, now),
            r == old(self)@.persist_clears(key@, now),
    {
        let key = String::from_str(key);
        self.evict(&key, now);
        let ghost mid = *self;
        match position(&self.expiry, &key) {
            Some(j) => {
                proof {
                    lemma_lookup(mid.expiry@, j as int);
                    lemma_remove(mid.expiry@, j as int);
                }
                self.expiry.remove(j);
                proof {
                    assert forall|a: int| 0 <= a < self.expiry@.len() implies key_views(
                        self.data@,
                    ).contains((#[trigger] self.expiry@[a]).0@) by {
                        let a0 = if a < j { a } else { a + 1 };
                        assert(self.expiry@[a] == mid.expiry@[a0]);
                        assert(key_views(mid.data@).contains(mid.expiry@[a0].0@));
                    }
                }
                self.mark_dirty();
                true
            },
            None => false,
        }
    }

    /// Position of an expiry second that has come, if there is one.
    fn first_expired(&self, now: u64) -> (r: Option<usize>)
        requires
            self.wf(),
        ensures
            match r {
                Some(j) => j < self.expiry@.len() && self@.expired(self.expiry@[j as int].0@, now),
                None => self@.expired_keys(now) =~= Set::<Text>::empty(),
            },
    {
        let mut j: usize = 0;
        while j < self.expiry.len()
            invariant
                self.wf(),
                j <= self.expiry.len(),
                forall|a: int| 0 <= a < j ==> (#[trigger] self.expiry@[a]).1 > now,
            decreases self.expiry.len() - j,
        {
            if self.expiry[j].1 <= now {
                proof {
                    lemma_lookup(self.expiry@, j as int);
                }
                return Some(j);
            }
            j += 1;
        }
        proof {
            assert forall|k: Text| !self@.expired(k, now) by {
                if self@.expiry.dom().contains(k) {
                    lemma_dom(self.expiry@, k);
                    let a = choose|a: int|
                        0 <= a < self.expiry@.len() && (#[trigger] self.expiry@[a]).0@ == k;
                    lemma_lookup(self.expiry@, a);
                }
            }
        }
        None
    }

    /// The sweep: takes out every key whose expiry second has come.
    pub fn cleanup_expired(&mut self, now: u64)
        requires
            old(self).wf(),
        ensures
            final(self).wf(),
            final(self)@ == old(self)@.sweep(now),
    {
        let ghost start = old(self)@;
        let ghost mut gone: Set<Text> = Set::empty();
        proof {
            assert(start.data.remove_keys(gone) =~= start.data);
            assert(start.expiry.remove_keys(gone) =~= start.expiry);
        }
        loop
            invariant
                self.wf(),
                start == old(self)@,
                forall|k: Text| gone.contains(k) ==> start.expired(k, now),
                self@.data == start.data.remove_keys(gone),
                self@.expiry == start.expiry.remove_keys(gone),
                self@.persistence == if gone =~= Set::<Text>::empty() {
                    start.persistence
                } else {
                    start.touch().persistence
                },
            decreases self.expiry@.len(),
        {
            let ghost before = *self;
            match self.first_expired(now) {
                Some(j) => {
                    let key = self.expiry[j].0.clone();
                    proof {
                        lemma_lookup(before.expiry@, j as int);
                        lemma_size(before.expiry@);
                    }
                    self.drop_key(&key);
                    proof {
                        lemma_size(self.expiry@);
                        assert(self@.expiry.dom() =~= before@.expiry.dom().remove(key@));
                        assert(start.data.remove_keys(gone).remove(key@)
                            =~= start.data.remove_keys(gone.insert(key@)));
                        assert(start.expiry.remove_keys(gone).remove(key@)
                            =~= start.expiry.remove_keys(gone.insert(key@)));
                        assert(gone.insert(key@).contains(key@));
                        gone = gone.insert(key@);
                    }
                },
                None => {
                    proof {
                        assert(gone =~= start.expired_keys(now)) by {
                            assert forall|k: Text| start.expired(k, now) implies gone.contains(
                                k,
                            ) by {
                                if !gone.contains(k) {
                                    assert(self@.expiry.dom().contains(k));
                                    assert(self@.expired(k, now));
                                    assert(self@.expired_keys(now).contains(k));
                                }
                            }
                        }
                        let swept = start.sweep(now);
                        if gone =~= Set::<Text>::empty() {
                            assert(start.data.remove_keys(gone) =~= start.data);
                            assert(start.expiry.remove_keys(gone) =~= start.expiry);
                        }
                        assert(self@.data == swept.data);
                        assert(self@.expiry == swept.expiry);
                        assert(self@.persistence == swept.persistence);
                    }
                    return ;
                },
            }
        }
    }

    /// `INFO`: sweeps, then counts the keys, in all and by variant. Returns
    /// the counters as named decimal numbers, by ascending name.
    pub fn info(&mut self, now: u64) -> (r: Vec<(String, String)>)
        requires
            old(self).wf(),
        ensures
            final(self).wf(),
            final(self)@ == old(self)@.sweep(now),
            pair_views(r@) == old(self)@.sweep(now).census().pairs(),
    {
        self.cleanup_expired(now);
        let mut strings: usize = 0;
        let mut lists: usize = 0;
        let mut sets: usize = 0;
        let mut hashes: usize = 0;
        let mut zsets: usize = 0;
        let mut i: usize = 0;
        while i < self.data.len()
            invariant
                i <= self.data.len(),
                strings == tally(self.data@.take(i as int), Kind::String),
                lists == tally(self.data@.take(i as int), Kind::List),
                sets == tally(self.data@.take(i as int), Kind::Members),
                hashes == tally(self.data@.take(i as int), Kind::Hash),
                zsets == tally(self.data@.take(i as int), Kind::SortedSet),
                strings <= i,
                lists <= i,
                sets <= i,
                hashes <= i,
                zsets <= i,
            decreases self.data.len() - i,
        {
            proof {
                assert(self.data@.take(i + 1).drop_last() =~= self.data@.take(i as int));
                assert(self.data@.take(i + 1).last() == self.data@[i as int]);
            }
            match self.data[i].1.kind() {
                Kind::String => {
                    strings += 1;
                },
                Kind::List => {
                    lists += 1;
                },
                Kind::Members => {
                    sets += 1;
                },
                Kind::Hash => {
                    hashes += 1;
                },
                Kind::SortedSet => {
                    zsets += 1;
                },
            }
            i += 1;
        }
        proof {
            assert(self.data@.take(self.data.len() as int) =~= self.data@);
            lemma_size(self.data@);
            lemma_tally(self.data@, Kind::String);
            lemma_tally(self.data@, Kind::List);
            lemma_tally(self.data@, Kind::Members);
            lemma_tally(self.data@, Kind::Hash);
            lemma_tally(self.data@, Kind::SortedSet);
        }
        let mut out: Vec<(String, String)> = Vec::new();
        out.push((String::from_str("hashes"), format_u64(hashes as u64)));
        out.push((String::from_str("keys"), format_u64(self.data.len() as u64)));
        out.push((String::from_str("lists"), format_u64(lists as u64)));
        out.push((String::from_str("sets"), format_u64(sets as u64)));
        out.push((String::from_str("strings"), format_u64(strings as u64)));
        out.push((String::from_str("zsets"), format_u64(zsets as u64)));
        assert(pair_views(out@) =~= self@.census().pairs());
        out
    }

    /// A keyspace with the contents of `snapshot`. The values are entered
    /// one after the other, each as [`normalized`] makes it, a key that
    /// occurs again taking the later value; then the expiry seconds, but for
    /// those of keys that have no value. Nothing awaits the next snapshot.
    pub fn new(persistence: Option<Persistence>, snapshot: &Snapshot) -> (r: Storage)
        ensures
            r.wf(),
            r@ == StorageView::restore(
                persistence_view(persistence),
                entry_views(snapshot.data@),
                entry_views(snapshot.expiry@),
            ),
    {
        let ghost values = entry_views(snapshot.data@);
        let ghost seconds = entry_views(snapshot.expiry@);
        let mut out = Storage::empty(persistence);
        let mut i: usize = 0;
        assert(values.take(0) =~= Seq::<(Text, ValueView)>::empty());
        while i < snapshot.data.len()
            invariant
                i <= snapshot.data.len(),
                values == entry_views(snapshot.data@),
                out.wf(),
                out@.data == install_values(values.take(i as int)),
                out@.expiry == Map::<Text, u64>::empty(),
                out@.persistence == persistence_view(persistence),
            decreases snapshot.data.len() - i,
        {
            proof {
                assert(values.take(i + 1).drop_last() =~= values.take(i as int));
                assert(values.take(i + 1).last() == (
                    snapshot.data@[i as int].0@,
                    snapshot.data@[i as int].1@,
                ));
            }
            out.place(snapshot.data[i].0.clone(), normalized(&snapshot.data[i].1));
            i += 1;
        }
        assert(values.take(snapshot.data.len() as int) =~= values);
        let ghost keys = out@.data.dom();
        let mut j: usize = 0;
        assert(seconds.take(0) =~= Seq::<(Text, u64)>::empty());
        while j < snapshot.expiry.len()
            invariant
                j <= snapshot.expiry.len(),
                seconds == entry_views(snapshot.expiry@),
                out.wf(),
                out@.data == install_values(values),
                keys == out@.data.dom(),
                out@.expiry == install_expiry(seconds.take(j as int), keys),
                out@.persistence == persistence_view(persistence),
            decreases snapshot.expiry.len() - j,
        {
            proof {
                assert(seconds.take(j + 1).drop_last() =~= seconds.take(j as int));
                assert(seconds.take(j + 1).last() == (
                    snapshot.expiry@[j as int].0@,
                    snapshot.expiry@[j as int].1,
                ));
            }
            if out.find(&snapshot.expiry[j].0).is_some() {
                out.put_expiry(snapshot.expiry[j].0.clone(), snapshot.expiry[j].1);
            }
            j += 1;
        }
        assert(seconds.take(snapshot.expiry.len() as int) =~= seconds);
        out
    }

    /// The keyspace at startup: with the contents of the snapshot that the
    /// load has yielded, empty where the load has failed.
    pub fn open(persistence: Option<Persistence>, loaded: &Result<Snapshot, LoadError>) -> (r:
        Storage)
        ensures
            r.wf(),
            r@ == match loaded {
                Ok(snapshot) => StorageView::restore(
                    persistence_view(persistence),
                    entry_views(snapshot.data@),
                    entry_views(snapshot.expiry@),
                ),
                Err(_) => StorageView::empty(persistence_view(persistence)),
            },
    {
        match loaded {
            Ok(snapshot) => Storage::new(persistence, snapshot),
            Err(_) => Storage::empty(persistence),
        }
    }

    /// The contents of the keyspace: each key once with its value, and each
    /// expiry second once with its key.
    pub fn snapshot(&self) -> (r: Snapshot)
        requires
            self.wf(),
        ensures
            distinct(r.data@),
            distinct(r.expiry@),
            as_map(r.data@) == self@.data,
            as_map(r.expiry@) == self@.expiry,
    {
        let mut data: Vec<(String, RedoxValue)> = Vec::new();
        let mut i: usize = 0;
        while i < self.data.len()
            invariant
                i <= self.data.len(),
                data.len() == i,
                forall|k: int|
                    0 <= k < i ==> (#[trigger] data@[k]).0@ == self.data@[k].0@ && data@[k].1@
                        == self.data@[k].1@,
            decreases self.data.len() - i,
        {
            data.push((self.data[i].0.clone(), copy_value(&self.data[i].1)));
            i += 1;
        }
        let mut expiry: Vec<(String, u64)> = Vec::new();
        let mut j: usize = 0;
        while j < self.expiry.len()
            invariant
                j <= self.expiry.len(),
                expiry.len() == j,
                forall|k: int|
                    0 <= k < j ==> (#[trigger] expiry@[k]).0@ == self.expiry@[k].0@ && expiry@[k].1
                        == self.expiry@[k].1,
            decreases self.expiry.len() - j,
        {
            expiry.push((self.expiry[j].0.clone(), self.expiry[j].1));
            j += 1;
        }
        proof {
            assert(key_views(data@) =~= key_views(self.data@));
            assert(key_views(expiry@) =~= key_views(self.expiry@));
            assert(as_map(data@) =~= as_map(self.data@));
            assert(as_map(expiry@) =~= as_map(self.expiry@));
        }
        Snapshot { data, expiry }
    }

    /// Whether a save is due at a tick of the save timer: exactly if
    /// snapshots are enabled and a change awaits the next one.
    pub fn save_due(&self) -> (r: bool)
        ensures
            r == self@.dirty(),
    {
        match &self.persistence {
            Some(p) => p.save_due(),
            None => false,
        }
    }

    /// Records a completed save at second `now`. A save that failed is not
    /// recorded, so that the next tick finds it due again.
    pub fn record_save(&mut self, now: u64)
        requires
            old(self).wf(),
        ensures
            final(self).wf(),
            final(self)@ == old(self)@.saved(now),
    {
        match &mut self.persistence {
            Some(p) => {
                p.record_save(now);
            },
            None => {},
        }
    }

    /// The snapshot bookkeeping, where snapshots are enabled.
    pub fn persistence(&self) -> (r: &Option<Persistence>)
        ensures
            persistence_view(*r) == self@.persistence,
    {
        &self.persistence
    }

    /// The expiry second of `key`, if it has one.
    pub fn get_expiry(&self, key: &str) -> (r: Option<u64>)
        requires
            self.wf(),
        ensures
            r == if self@.expiry.dom().contains(key@) {
                Some(self@.expiry[key@])
            } else {
                None::<u64>
            },
    {
        let key = String::from_str(key);
        match position(&self.expiry, &key) {
            Some(j) => {
                proof {
                    lemma_lookup(self.expiry@, j as int);
                }
                Some(self.expiry[j].1)
            },
            None => None,
        }
    }
}

} // verus!
