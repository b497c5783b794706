//! The invariants of the keyspace hold whatever commands run on it: a key
//! has one value of one variant, expiry seconds belong to keys that have a
//! value, and sets, hashes and sorted sets name each item once.

use vstd::prelude::*;
use crate::model::{with_entry, without, without_entry, ScoreView, StorageView, Text};
use crate::protocol::CommandView;
use crate::score::is_number;
use crate::session::effect;
use crate::value::{firsts, ValueView};

verus! {

/// Taking an item out of a sequence without repeated items leaves none
/// repeated.
pub proof fn lemma_remove_keeps_distinct<A>(s: Seq<A>, j: int)
    requires
        s.no_duplicates(),
        0 <= j < s.len(),
    ensures
        s.remove(j).no_duplicates(),
{
    let t = s.remove(j);
    assert forall|a: int, b: int| 0 <= a < t.len() && 0 <= b < t.len() && a != b implies t[a]
        != t[b] by {
        let a0 = if a < j { a } else { a + 1 };
        let b0 = if b < j { b } else { b + 1 };
        assert(t[a] == s[a0] && t[b] == s[b0]);
    }
}

/// A new last item that the sequence does not hold leaves none repeated.
pub proof fn lemma_push_keeps_distinct<A>(s: Seq<A>, x: A)
    requires
        s.no_duplicates(),
        !s.contains(x),
    ensures
        s.push(x).no_duplicates(),
{
    let t = s.push(x);
    assert forall|a: int, b: int| 0 <= a < t.len() && 0 <= b < t.len() && a != b implies t[a]
        != t[b] by {
        if a < s.len() && b < s.len() {
            assert(s[a] != s[b]);
        } else if a < s.len() {
            assert(s[a] == t[a]);
        } else {
            assert(s[b] == t[b]);
        }
    }
}

/// Without a member a set is still a set.
pub proof fn lemma_without_keeps_distinct<A>(s: Seq<A>, x: A)
    requires
        s.no_duplicates(),
    ensures
        without(s, x).no_duplicates(),
{
    if s.contains(x) {
        lemma_remove_keeps_distinct(s, s.index_of(x));
    }
}

/// Entering a value under a name keeps the names distinct, and changes no
/// value but that of the name.
pub proof fn lemma_with_entry_keeps_distinct<A, B>(pairs: Seq<(A, B)>, name: A, value: B)
    requires
        firsts(pairs).no_duplicates(),
    ensures
        firsts(with_entry(pairs, name, value)).no_duplicates(),
        forall|i: int|
            0 <= i < with_entry(pairs, name, value).len() ==> (i < pairs.len()
                && #[trigger] with_entry(pairs, name, value)[i] == pairs[i]) || with_entry(
                pairs,
                name,
                value,
            )[i].1 == value,
{
    let names = firsts(pairs);
    let out = with_entry(pairs, name, value);
    if names.contains(name) {
        let j = names.index_of(name);
        assert(firsts(out) =~= names) by {
            assert forall|i: int| 0 <= i < names.len() implies firsts(out)[i] == names[i] by {
                if i == j {
                    assert(out[i] == (name, value));
                } else {
                    assert(out[i] == pairs[i]);
                }
            }
        }
    } else {
        assert(firsts(out) =~= names.push(name));
        lemma_push_keeps_distinct(names, name);
    }
}

/// Taking a name out keeps the names distinct, and changes no value.
pub proof fn lemma_without_entry_keeps_distinct<A, B>(pairs: Seq<(A, B)>, name: A)
    requires
        firsts(pairs).no_duplicates(),
    ensures
        firsts(without_entry(pairs, name)).no_duplicates(),
        forall|i: int|
            0 <= i < without_entry(pairs, name).len() ==> pairs.contains(
                #[trigger] without_entry(pairs, name)[i],
            ),
{
    let names = firsts(pairs);
    let out = without_entry(pairs, name);
    if names.contains(name) {
        let j = names.index_of(name);
        assert(firsts(out) =~= names.remove(j));
        lemma_remove_keeps_distinct(names, j);
        assert forall|i: int| 0 <= i < out.len() implies pairs.contains(#[trigger] out[i]) by {
            let i0 = if i < j { i } else { i + 1 };
            assert(out[i] == pairs[i0]);
        }
    } else {
        assert forall|i: int| 0 <= i < out.len() implies pairs.contains(#[trigger] out[i]) by {
            assert(out[i] == pairs[i]);
        }
    }
}

/// Putting a value that meets its invariant under a key keeps the
/// invariants.
pub proof fn lemma_store_keeps(s: StorageView, k: Text, v: ValueView)
    requires
        s.wf(),
        v.wf(),
    ensures
        s.store(k, v).wf(),
{
}

/// Lazy eviction keeps the invariants.
pub proof fn lemma_evict_keeps(s: StorageView, k: Text, now: u64)
    requires
        s.wf(),
    ensures
        s.evict(k, now).wf(),
        s.drop_key(k).wf(),
        s.del_one(k, now).wf(),
        s.touch().wf(),
{
}

/// The sweep keeps the invariants.
pub proof fn lemma_sweep_keeps(s: StorageView, now: u64)
    requires
        s.wf(),
    ensures
        s.sweep(now).wf(),
{
    let gone = s.expired_keys(now);
    assert(s.data.remove_keys(gone).dom().subset_of(s.data.dom()));
    assert(s.expiry.remove_keys(gone).dom().subset_of(s.expiry.dom()));
    vstd::set_lib::lemma_len_subset(s.data.remove_keys(gone).dom(), s.data.dom());
    vstd::set_lib::lemma_len_subset(s.expiry.remove_keys(gone).dom(), s.expiry.dom());
}

/// `MSET` keeps the invariants.
pub proof fn lemma_mset_keeps(s: StorageView, pairs: Seq<(Text, Text)>, now: u64)
    requires
        s.wf(),
    ensures
        s.mset(pairs, now).wf(),
    decreases pairs.len(),
{
    if pairs.len() > 0 {
        let before = s.mset(pairs.drop_last(), now);
        lemma_mset_keeps(s, pairs.drop_last(), now);
        lemma_evict_keeps(before, pairs.last().0, now);
        lemma_store_keeps(
            before.evict(pairs.last().0, now),
            pairs.last().0,
            ValueView::String(pairs.last().1),
        );
    }
}

/// Evicting several keys keeps the invariants.
pub proof fn lemma_evict_all_keeps(s: StorageView, keys: Seq<Text>, now: u64)
    requires
        s.wf(),
    ensures
        s.evict_all(keys, now).wf(),
    decreases keys.len(),
{
    if keys.len() > 0 {
        lemma_evict_all_keeps(s, keys.drop_last(), now);
        lemma_evict_keeps(s.evict_all(keys.drop_last(), now), keys.last(), now);
    }
}

/// `DEL` keeps the invariants.
pub proof fn lemma_del_keeps(s: StorageView, keys: Seq<Text>, now: u64)
    requires
        s.wf(),
    ensures
        s.del(keys, now).wf(),
    decreases keys.len(),
{
    if keys.len() > 0 {
        lemma_del_keeps(s, keys.drop_last(), now);
        lemma_evict_keeps(s.del(keys.drop_last(), now), keys.last(), now);
    }
}

/// The writes on lists keep the invariants.
pub proof fn lemma_list_writes_keep(s: StorageView, k: Text, v: Text, now: u64)
    requires
        s.wf(),
    ensures
        s.lpush(k, v, now).wf(),
        s.rpush(k, v, now).wf(),
        s.lpop(k, now).wf(),
        s.rpop(k, now).wf(),
{
    let e = s.evict(k, now);
    lemma_evict_keeps(s, k, now);
    match s.list_to_extend(k, now) {
        Some(items) => {
            lemma_store_keeps(e, k, ValueView::List(seq![v] + items));
            lemma_store_keeps(e, k, ValueView::List(items.push(v)));
        },
        None => {},
    }
    match s.list_at(k, now) {
        Some(items) => {
            lemma_store_keeps(e, k, ValueView::List(items.drop_first()));
            lemma_store_keeps(e, k, ValueView::List(items.drop_last()));
        },
        None => {},
    }
}

/// The writes on sets keep the invariants.
pub proof fn lemma_set_writes_keep(s: StorageView, k: Text, m: Text, now: u64)
    requires
        s.wf(),
    ensures
        s.sadd(k, m, now).wf(),
        s.srem(k, m, now).wf(),
{
    let e = s.evict(k, now);
    lemma_evict_keeps(s, k, now);
    if s.sadd_adds(k, m, now) {
        let members = s.members_to_extend(k, now)->0;
        if e.lookup(k) is Some {
            assert(e.data[k].wf());
        }
        lemma_push_keeps_distinct(members, m);
        lemma_store_keeps(e, k, ValueView::Members(members.push(m)));
    }
    if s.sismember(k, m, now) {
        let members = s.members_at(k, now)->0;
        assert(e.data[k].wf());
        lemma_without_keeps_distinct(members, m);
        lemma_store_keeps(e, k, ValueView::Members(without(members, m)));
    }
}

/// The writes on hashes keep the invariants.
pub proof fn lemma_hash_writes_keep(s: StorageView, k: Text, f: Text, v: Text, now: u64)
    requires
        s.wf(),
    ensures
        s.hset(k, f, v, now).wf(),
        s.hdel(k, f, now).wf(),
{
    let e = s.evict(k, now);
    lemma_evict_keeps(s, k, now);
    match s.fields_to_extend(k, now) {
        Some(fields) => {
            if e.lookup(k) is Some {
                assert(e.data[k].wf());
            }
            lemma_with_entry_keeps_distinct(fields, f, v);
            lemma_store_keeps(e, k, ValueView::Hash(with_entry(fields, f, v)));
        },
        None => {},
    }
    if s.hdel_removes(k, f, now) {
        let fields = s.fields_at(k, now)->0;
        assert(e.data[k].wf());
        lemma_without_entry_keeps_distinct(fields, f);
        lemma_store_keeps(e, k, ValueView::Hash(without_entry(fields, f)));
    }
}

/// The writes on sorted sets keep the invariants, given that the score is a
/// number.
pub proof fn lemma_sorted_writes_keep(
    s: StorageView,
    k: Text,
    score: ScoreView,
    m: Text,
    now: u64,
)
    requires
        s.wf(),
        is_number(score.0),
    ensures
        s.zadd(k, score, m, now).wf(),
        s.zrem(k, m, now).wf(),
{
    let e = s.evict(k, now);
    lemma_evict_keeps(s, k, now);
    match s.scored_to_extend(k, now) {
        Some(members) => {
            if e.lookup(k) is Some {
                assert(e.data[k].wf());
            }
            let out = with_entry(members, m, score);
            lemma_with_entry_keeps_distinct(members, m, score);
            assert forall|i: int| 0 <= i < out.len() implies is_number((#[trigger] out[i]).1.0) by {
                if i < members.len() && out[i] == members[i] {
                    assert(is_number(members[i].1.0));
                }
            }
            lemma_store_keeps(e, k, ValueView::SortedSet(out));
        },
        None => {},
    }
    if s.zrem_removes(k, m, now) {
        let members = s.scored_at(k, now)->0;
        assert(e.data[k].wf());
        let out = without_entry(members, m);
        lemma_without_entry_keeps_distinct(members, m);
        assert forall|i: int| 0 <= i < out.len() implies is_number((#[trigger] out[i]).1.0) by {
            assert(members.contains(out[i]));
            let j = choose|j: int| 0 <= j < members.len() && members[j] == out[i];
            assert(is_number(members[j].1.0));
        }
        lemma_store_keeps(e, k, ValueView::SortedSet(out));
    }
}

/// Every command keeps the invariants of the keyspace, given that the score
/// of `ZADD` is a number.
pub proof fn law_commands_keep_invariants(s: StorageView, command: CommandView, now: u64)
    requires
        s.wf(),
        command matches CommandView::ZAdd { key, score, member } ==> is_number(score.0),
    ensures
        effect(s, command, now).wf(),
{
    match command {
        CommandView::Auth { password } => {},
        CommandView::SetString { key, value } => {
            lemma_evict_keeps(s, key, now);
            lemma_store_keeps(s.evict(key, now), key, ValueView::String(value));
        },
        CommandView::LPush { key, value } => {
            lemma_list_writes_keep(s, key, value, now);
        },
        CommandView::RPush { key, value } => {
            lemma_list_writes_keep(s, key, value, now);
        },
        CommandView::LPop { key } => {
            lemma_list_writes_keep(s, key, key, now);
        },
        CommandView::RPop { key } => {
            lemma_list_writes_keep(s, key, key, now);
        },
        CommandView::SAdd { key, member } => {
            lemma_set_writes_keep(s, key, member, now);
        },
        CommandView::SRem { key, member } => {
            lemma_set_writes_keep(s, key, member, now);
        },
        CommandView::HSet { key, field, value } => {
            lemma_hash_writes_keep(s, key, field, value, now);
        },
        CommandView::HDel { key, field } => {
            lemma_hash_writes_keep(s, key, field, field, now);
        },
        CommandView::ZAdd { key, score, member } => {
            lemma_sorted_writes_keep(s, key, score, member, now);
        },
        CommandView::ZRem { key, member } => {
            lemma_sorted_writes_keep(s, key, (0u64, Seq::empty()), member, now);
        },
        CommandView::MSet(pairs) => {
            lemma_mset_keeps(s, pairs, now);
        },
        CommandView::MGet(keys) => {
            lemma_evict_all_keeps(s, keys, now);
        },
        CommandView::Del(keys) => {
            lemma_del_keeps(s, keys, now);
        },
        CommandView::Info => {
            lemma_sweep_keeps(s, now);
        },
        CommandView::Get { key } => {
            lemma_evict_keeps(s, key, now);
        },
        CommandView::LRange { key, start, stop } => {
            lemma_evict_keeps(s, key, now);
        },
        CommandView::SMembers { key } => {
            lemma_evict_keeps(s, key, now);
        },
        CommandView::SIsMember { key, member } => {
            lemma_evict_keeps(s, key, now);
        },
        CommandView::HGet { key, field } => {
            lemma_evict_keeps(s, key, now);
        },
        CommandView::HGetAll { key } => {
            lemma_evict_keeps(s, key, now);
        },
        CommandView::ZRange { key, start, stop } => {
            lemma_evict_keeps(s, key, now);
        },
        CommandView::ZRangeByScore { key, min, max } => {
            lemma_evict_keeps(s, key, now);
        },
    }
}

/// The operations on expiry seconds keep the invariants.
pub proof fn law_expiry_keeps_invariants(s: StorageView, k: Text, seconds: u64, now: u64)
    requires
        s.wf(),
    ensures
        s.expire(k, seconds, now).wf(),
        s.persist(k, now).wf(),
        s.sweep(now).wf(),
{
    lemma_evict_keeps(s, k, now);
    lemma_sweep_keeps(s, now);
}

} // verus!
