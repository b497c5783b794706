//! What holds of the keyspace whatever it contains: the laws that relate its
//! operations to each other.

use vstd::prelude::*;
use crate::assoc::{as_map, distinct, key_views, lemma_lookup, lemma_push};
use crate::model::{
    by_score, collect, dedup, install_expiry, install_values, keys_of, normalize, score_keys,
    score_within, PersistenceView, ScoreView, StorageView, Text,
};
use crate::order::{key_le, lemma_ranking_sorted, lists_each, sorted_order};
use crate::protocol::CommandView;
use crate::range::lemma_full_range;
use crate::score::{
    is_number, lemma_numbers_between_infinities, INFINITY_BITS, NEG_INFINITY_BITS,
};
use crate::encode::response_line;
use crate::session::{answer, effect};
use crate::value::{entry_views, firsts, Kind, RedoxValue, ValueView};

verus! {

/// A key is observable to an operation exactly if it has a value and no
/// expiry second that has come.
pub proof fn law_observable(s: StorageView, k: Text, now: u64)
    ensures
        s.at(k, now) == if s.live(k, now) {
            Some(s.data[k])
        } else {
            None::<ValueView>
        },
{
}

/// `GET` after `SET` returns what was set, as long as the key has not
/// expired in between.
pub proof fn law_get_after_set(s: StorageView, k: Text, v: Text, now: u64, later: u64)
    requires
        !s.set_string(k, v, now).expired(k, later),
    ensures
        s.set_string(k, v, now).get_string(k, later) == Some(v),
{
}

/// A key that holds no value of a variant is answered with that variant's
/// empty reply by every read of the variant.
pub proof fn law_reads_of_other_variant_are_empty(
    s: StorageView,
    k: Text,
    now: u64,
    start: int,
    stop: int,
    m: Text,
    min: ScoreView,
    max: ScoreView,
)
    ensures
        !(s.lookup(k) matches Some(v) && v is String) ==> s.get_string(k, now).is_none(),
        !(s.lookup(k) matches Some(v) && v is List) ==> {
            &&& s.lrange(k, start, stop, now).is_none()
            &&& s.lpop_result(k, now).is_none()
            &&& s.rpop_result(k, now).is_none()
        },
        !(s.lookup(k) matches Some(v) && v is Members) ==> {
            &&& s.members_at(k, now).is_none()
            &&& !s.sismember(k, m, now)
        },
        !(s.lookup(k) matches Some(v) && v is Hash) ==> {
            &&& s.hget(k, m, now).is_none()
            &&& s.fields_at(k, now).is_none()
        },
        !(s.lookup(k) matches Some(v) && v is SortedSet) ==> {
            &&& s.zrange(k, start, stop, now).is_none()
            &&& s.zrangebyscore(k, min, max, now).is_none()
        },
{
}

/// A write of one variant to a key that holds a value of another variant
/// changes nothing and reports nothing done.
pub proof fn law_writes_of_other_variant_do_nothing(
    s: StorageView,
    k: Text,
    now: u64,
    x: Text,
    y: Text,
    score: ScoreView,
)
    requires
        s.live(k, now),
    ensures
        !(s.data[k] is List) ==> {
            &&& s.lpush(k, x, now) == s
            &&& s.rpush(k, x, now) == s
            &&& s.push_len(k, now) == 0
            &&& s.lpop(k, now) == s
            &&& s.rpop(k, now) == s
        },
        !(s.data[k] is Members) ==> {
            &&& s.sadd(k, x, now) == s
            &&& !s.sadd_adds(k, x, now)
            &&& s.srem(k, x, now) == s
        },
        !(s.data[k] is Hash) ==> {
            &&& s.hset(k, x, y, now) == s
            &&& !s.hset_creates(k, x, now)
            &&& s.hdel(k, x, now) == s
            &&& !s.hdel_removes(k, x, now)
        },
        !(s.data[k] is SortedSet) ==> {
            &&& s.zadd(k, score, x, now) == s
            &&& !s.zadd_adds(k, x, now)
            &&& s.zrem(k, x, now) == s
            &&& !s.zrem_removes(k, x, now)
        },
{
}

/// `DEL` of one key leaves no value under it.
pub proof fn law_del_one_removes(s: StorageView, k: Text, now: u64)
    ensures
        s.del_one(k, now).lookup(k).is_none(),
        forall|j: Text| j != k ==> s.del_one(k, now).lookup(j) == s.lookup(j),
{
}

/// After `DEL` a key that was among its arguments holds no value, so that
/// every read of it, at any later second, is answered with the empty reply.
pub proof fn law_read_after_del(s: StorageView, keys: Seq<Text>, k: Text, now: u64, later: u64)
    requires
        keys.contains(k),
    ensures
        s.del(keys, now).lookup(k).is_none(),
        s.del(keys, now).at(k, later).is_none(),
    decreases keys.len(),
{
    let front = keys.drop_last();
    law_del_one_removes(s.del(front, now), keys.last(), now);
    if keys.last() != k {
        let i = choose|i: int| 0 <= i < keys.len() && keys[i] == k;
        assert(front[i] == k);
        law_read_after_del(s, front, k, now, later);
    }
}

/// The five variants partition the keys.
pub proof fn law_census_total(data: Map<Text, ValueView>)
    requires
        data.dom().finite(),
    ensures
        data.dom().len() == keys_of(data, Kind::String).len() + keys_of(data, Kind::List).len()
            + keys_of(data, Kind::Members).len() + keys_of(data, Kind::Hash).len() + keys_of(
            data,
            Kind::SortedSet,
        ).len(),
    decreases data.dom().len(),
{
    if data.dom().len() == 0 {
        assert(data.dom() =~= Set::<Text>::empty());
        assert(keys_of(data, Kind::String) =~= Set::<Text>::empty());
        assert(keys_of(data, Kind::List) =~= Set::<Text>::empty());
        assert(keys_of(data, Kind::Members) =~= Set::<Text>::empty());
        assert(keys_of(data, Kind::Hash) =~= Set::<Text>::empty());
        assert(keys_of(data, Kind::SortedSet) =~= Set::<Text>::empty());
    } else {
        let k = data.dom().choose();
        let rest = data.remove(k);
        law_census_total(rest);
        lemma_keys_of_step(data, k, Kind::String);
        lemma_keys_of_step(data, k, Kind::List);
        lemma_keys_of_step(data, k, Kind::Members);
        lemma_keys_of_step(data, k, Kind::Hash);
        lemma_keys_of_step(data, k, Kind::SortedSet);
    }
}

/// Taking a key out lowers the count of its variant by one and no other.
pub proof fn lemma_keys_of_step(data: Map<Text, ValueView>, k: Text, kind: Kind)
    requires
        data.dom().finite(),
        data.dom().contains(k),
    ensures
        keys_of(data.remove(k), kind).finite(),
        keys_of(data, kind).len() == keys_of(data.remove(k), kind).len() + if data[k].kind()
            == kind {
            1nat
        } else {
            0nat
        },
{
    let rest = data.remove(k);
    assert(keys_of(rest, kind).subset_of(rest.dom()));
    vstd::set_lib::lemma_len_subset(keys_of(rest, kind), rest.dom());
    if data[k].kind() == kind {
        assert(keys_of(data, kind) =~= keys_of(rest, kind).insert(k));
    } else {
        assert(keys_of(data, kind) =~= keys_of(rest, kind));
    }
}

/// What `INFO` counts: after the sweep the keys are the observable keys, and
/// their number is the sum of the five counters.
pub proof fn law_info_counts_live_keys(s: StorageView, now: u64)
    requires
        s.wf(),
    ensures
        s.sweep(now).data.dom() == s.live_keys(now),
        s.sweep(now).census().keys == s.live_keys(now).len(),
        s.sweep(now).census().keys == s.sweep(now).census().strings + s.sweep(
            now,
        ).census().lists + s.sweep(now).census().sets + s.sweep(now).census().hashes + s.sweep(
            now,
        ).census().zsets,
{
    let swept = s.sweep(now);
    assert forall|k: Text| swept.data.dom().contains(k) == s.live_keys(now).contains(k) by {
        assert(s.expired_keys(now).contains(k) == s.expired(k, now));
    }
    assert(swept.data.dom() =~= s.live_keys(now));
    assert(swept.data.dom().subset_of(s.data.dom()));
    vstd::set_lib::lemma_len_subset(swept.data.dom(), s.data.dom());
    law_census_total(swept.data);
}

/// A key whose expiry second has come is not observable, and neither the
/// read that finds it so nor the sweep leaves it among the keys.
pub proof fn law_past_deadline(s: StorageView, k: Text, later: u64)
    requires
        s.expired(k, later),
    ensures
        s.at(k, later).is_none(),
        !s.evict(k, later).data.dom().contains(k),
        !s.sweep(later).data.dom().contains(k),
        !s.live_keys(later).contains(k),
{
    assert(s.expired_keys(later).contains(k));
}

/// After `EXPIRE` with 0 seconds the key is past its deadline from that
/// second on.
pub proof fn law_expire_now(s: StorageView, k: Text, now: u64, later: u64)
    requires
        s.live(k, now),
        now <= later,
    ensures
        s.expire(k, 0, now).expired(k, later),
        s.expire(k, 0, now).at(k, later).is_none(),
        !s.expire(k, 0, now).sweep(later).data.dom().contains(k),
{
    law_past_deadline(s.expire(k, 0, now), k, later);
}

/// The order of `ZRANGE`: every member is listed once, and the listing
/// ascends by score and, among equal scores, by member.
pub proof fn law_by_score_ascends(members: Seq<(Text, ScoreView)>)
    ensures
        by_score(members).len() == members.len(),
        lists_each(sorted_order(score_keys(members)), members.len()),
        forall|i: int|
            0 <= i < members.len() ==> #[trigger] by_score(members)[i]
                == members[sorted_order(score_keys(members))[i]],
        forall|i: int, j: int|
            0 <= i < j < members.len() ==> key_le(
                #[trigger] score_keys(by_score(members))[i],
                #[trigger] score_keys(by_score(members))[j],
            ),
{
    let keys = score_keys(members);
    let order = sorted_order(keys);
    lemma_ranking_sorted(keys, keys.len());
    assert forall|i: int, j: int| 0 <= i < j < members.len() implies key_le(
        #[trigger] score_keys(by_score(members))[i],
        #[trigger] score_keys(by_score(members))[j],
    ) by {
        assert(score_keys(by_score(members))[i] == keys[order[i]]);
        assert(score_keys(by_score(members))[j] == keys[order[j]]);
    }
}

/// A filter that every item passes keeps the sequence.
pub proof fn lemma_filter_all<A>(s: Seq<A>, pred: spec_fn(A) -> bool)
    requires
        forall|i: int| 0 <= i < s.len() ==> pred(#[trigger] s[i]),
    ensures
        s.filter(pred) == s,
    decreases s.len(),
{
    reveal(Seq::filter);
    if s.len() > 0 {
        assert forall|i: int| 0 <= i < s.drop_last().len() implies pred(
            #[trigger] s.drop_last()[i],
        ) by {
            assert(s.drop_last()[i] == s[i]);
        }
        lemma_filter_all(s.drop_last(), pred);
        assert(s.drop_last().push(s.last()) =~= s);
    }
}

/// `ZRANGE` from 0 to -1 returns every member in the order of the sorted
/// set, and `ZRANGEBYSCORE` between the two infinities returns the same
/// sequence.
pub proof fn law_whole_ranges_agree(
    s: StorageView,
    k: Text,
    now: u64,
    min: ScoreView,
    max: ScoreView,
)
    requires
        s.wf(),
        min.0 == NEG_INFINITY_BITS,
        max.0 == INFINITY_BITS,
    ensures
        s.zrange(k, 0, -1, now) == s.zrangebyscore(k, min, max, now),
        s.scored_at(k, now) matches Some(members) ==> s.zrange(k, 0, -1, now) == Some(
            by_score(members),
        ),
{
    match s.scored_at(k, now) {
        Some(members) => {
            let sorted = by_score(members);
            lemma_full_range(sorted);
            law_by_score_ascends(members);
            assert(s.data.dom().contains(k) && s.data[k] == ValueView::SortedSet(members));
            assert(s.data[k].wf());
            let pred = |p: (Text, ScoreView)| score_within(p.1, min, max);
            assert forall|i: int| 0 <= i < sorted.len() implies pred(#[trigger] sorted[i]) by {
                let at = sorted_order(score_keys(members))[i];
                assert(0 <= at < members.len());
                assert(is_number(members[at].1.0));
                lemma_numbers_between_infinities(members[at].1.0);
            }
            lemma_filter_all(sorted, pred);
        },
        None => {},
    }
}

/// Whether `command` names the key `k` among its arguments.
pub open spec fn names(command: CommandView, k: Text) -> bool {
    match command {
        CommandView::Auth { password } => false,
        CommandView::SetString { key, value } => key == k,
        CommandView::Get { key } => key == k,
        CommandView::LPush { key, value } => key == k,
        CommandView::RPush { key, value } => key == k,
        CommandView::LPop { key } => key == k,
        CommandView::RPop { key } => key == k,
        CommandView::LRange { key, start, stop } => key == k,
        CommandView::SAdd { key, member } => key == k,
        CommandView::SRem { key, member } => key == k,
        CommandView::SMembers { key } => key == k,
        CommandView::SIsMember { key, member } => key == k,
        CommandView::HSet { key, field, value } => key == k,
        CommandView::HGet { key, field } => key == k,
        CommandView::HGetAll { key } => key == k,
        CommandView::HDel { key, field } => key == k,
        CommandView::ZAdd { key, score, member } => key == k,
        CommandView::ZRem { key, member } => key == k,
        CommandView::ZRange { key, start, stop } => key == k,
        CommandView::ZRangeByScore { key, min, max } => key == k,
        CommandView::MSet(pairs) => firsts(pairs).contains(k),
        CommandView::MGet(keys) => keys.contains(k),
        CommandView::Info => false,
        CommandView::Del(keys) => keys.contains(k),
    }
}

/// Whether `command` can put a value of the given variant under `k`: it is
/// a write of that variant, and names `k`.
pub open spec fn writes(command: CommandView, k: Text, kind: Kind) -> bool {
    names(command, k) && match command {
        CommandView::SetString { key, value } => kind == Kind::String,
        CommandView::MSet(pairs) => kind == Kind::String,
        CommandView::LPush { key, value } => kind == Kind::List,
        CommandView::RPush { key, value } => kind == Kind::List,
        CommandView::SAdd { key, member } => kind == Kind::Members,
        CommandView::HSet { key, field, value } => kind == Kind::Hash,
        CommandView::ZAdd { key, score, member } => kind == Kind::SortedSet,
        _ => false,
    }
}

/// Whether `k` holds a value of the given variant.
pub open spec fn holds(s: StorageView, k: Text, kind: Kind) -> bool {
    s.lookup(k) matches Some(v) && v.kind() == kind
}

/// The keyspace after a sequence of commands, each with the second at which
/// it runs.
pub open spec fn run(s: StorageView, steps: Seq<(CommandView, u64)>) -> StorageView
    decreases steps.len(),
{
    if steps.len() == 0 {
        s
    } else {
        effect(run(s, steps.drop_last()), steps.last().0, steps.last().1)
    }
}

/// `MSET` leaves alone a key that is not among its pairs.
proof fn lemma_mset_frame(s: StorageView, pairs: Seq<(Text, Text)>, k: Text, now: u64)
    requires
        !firsts(pairs).contains(k),
    ensures
        s.mset(pairs, now).lookup(k) == s.lookup(k),
        s.mset(pairs, now).expiry.dom().contains(k) == s.expiry.dom().contains(k),
        s.expiry.dom().contains(k) ==> s.mset(pairs, now).expiry[k] == s.expiry[k],
    decreases pairs.len(),
{
    if pairs.len() > 0 {
        let front = pairs.drop_last();
        assert(firsts(pairs)[pairs.len() - 1] == pairs.last().0);
        assert(!firsts(front).contains(k)) by {
            if firsts(front).contains(k) {
                let i = choose|i: int| 0 <= i < firsts(front).len() && firsts(front)[i] == k;
                assert(firsts(pairs)[i] == k);
            }
        }
        lemma_mset_frame(s, front, k, now);
    }
}

/// `MSET` puts strings under the keys of its pairs and nothing under any
/// other key.
proof fn lemma_mset_writes_strings(s: StorageView, pairs: Seq<(Text, Text)>, k: Text, now: u64)
    ensures
        s.mset(pairs, now).lookup(k) == s.lookup(k) || s.mset(pairs, now).lookup(k).is_none() || (
        firsts(pairs).contains(k) && holds(s.mset(pairs, now), k, Kind::String)),
    decreases pairs.len(),
{
    if pairs.len() > 0 {
        let front = pairs.drop_last();
        lemma_mset_writes_strings(s, front, k, now);
        assert(firsts(pairs)[pairs.len() - 1] == pairs.last().0);
        if firsts(front).contains(k) {
            let i = choose|i: int| 0 <= i < firsts(front).len() && firsts(front)[i] == k;
            assert(firsts(pairs)[i] == k);
        }
    }
}

/// Eviction brings no value under any key, and leaves alone the keys that
/// it is not asked to treat.
proof fn lemma_evict_all_frame(s: StorageView, keys: Seq<Text>, k: Text, now: u64)
    ensures
        s.evict_all(keys, now).lookup(k) == s.lookup(k) || s.evict_all(keys, now).lookup(
            k,
        ).is_none(),
        !keys.contains(k) ==> s.evict_all(keys, now).lookup(k) == s.lookup(k) && s.evict_all(
            keys,
            now,
        ).expiry.dom().contains(k) == s.expiry.dom().contains(k) && (s.expiry.dom().contains(k)
            ==> s.evict_all(keys, now).expiry[k] == s.expiry[k]),
    decreases keys.len(),
{
    if keys.len() > 0 {
        let front = keys.drop_last();
        lemma_evict_all_frame(s, front, k, now);
        if !keys.contains(k) {
            assert(keys[keys.len() - 1] != k);
            assert(!front.contains(k)) by {
                if front.contains(k) {
                    let i = choose|i: int| 0 <= i < front.len() && front[i] == k;
                    assert(keys[i] == k);
                }
            }
        }
    }
}

/// `DEL` brings no value under any key, and leaves alone the keys that are
/// not among its arguments.
proof fn lemma_del_frame(s: StorageView, keys: Seq<Text>, k: Text, now: u64)
    ensures
        s.del(keys, now).lookup(k) == s.lookup(k) || s.del(keys, now).lookup(k).is_none(),
        !keys.contains(k) ==> s.del(keys, now).lookup(k) == s.lookup(k) && s.del(
            keys,
            now,
        ).expiry.dom().contains(k) == s.expiry.dom().contains(k) && (s.expiry.dom().contains(k)
            ==> s.del(keys, now).expiry[k] == s.expiry[k]),
    decreases keys.len(),
{
    if keys.len() > 0 {
        let front = keys.drop_last();
        lemma_del_frame(s, front, k, now);
        if !keys.contains(k) {
            assert(keys[keys.len() - 1] != k);
            assert(!front.contains(k)) by {
                if front.contains(k) {
                    let i = choose|i: int| 0 <= i < front.len() && front[i] == k;
                    assert(keys[i] == k);
                }
            }
        }
    }
}

/// A command leaves alone what a later operation finds under a key that it
/// does not name.
#[verifier::spinoff_prover]
#[verifier::rlimit(40)]
pub proof fn law_other_keys_untouched(
    s: StorageView,
    command: CommandView,
    k: Text,
    now: u64,
    later: u64,
)
    requires
        !names(command, k),
        now <= later,
    ensures
        effect(s, command, now).at(k, later) == s.at(k, later),
{
    match command {
        CommandView::MSet(pairs) => {
            lemma_mset_frame(s, pairs, k, now);
        },
        CommandView::MGet(keys) => {
            lemma_evict_all_frame(s, keys, k, now);
        },
        CommandView::Del(keys) => {
            lemma_del_frame(s, keys, k, now);
        },
        CommandView::Info => {
            assert(s.expired_keys(now).contains(k) == s.expired(k, now));
        },
        _ => {},
    }
}

/// `GET` after `SET` returns what was set, whatever commands on other keys
/// ran in between, as long as the key has not expired.
pub proof fn law_get_after_set_and_others(
    s: StorageView,
    k: Text,
    v: Text,
    now: u64,
    steps: Seq<(CommandView, u64)>,
    later: u64,
)
    requires
        forall|i: int| 0 <= i < steps.len() ==> !names((#[trigger] steps[i]).0, k) && steps[i].1
            <= later,
        !s.set_string(k, v, now).expired(k, later),
    ensures
        run(s.set_string(k, v, now), steps).get_string(k, later) == Some(v),
    decreases steps.len(),
{
    let start = s.set_string(k, v, now);
    if steps.len() > 0 {
        let front = steps.drop_last();
        assert forall|i: int| 0 <= i < front.len() implies !names((#[trigger] front[i]).0, k)
            && front[i].1 <= later by {
            assert(front[i] == steps[i]);
        }
        law_get_after_set_and_others(s, k, v, now, front, later);
        assert(!names(steps[steps.len() - 1].0, k));
        law_other_keys_untouched(run(start, front), steps.last().0, k, steps.last().1, later);
    }
}

/// A command that is no write of a variant to a key does not bring a value
/// of that variant under the key.
#[verifier::spinoff_prover]
#[verifier::rlimit(40)]
pub proof fn law_variant_needs_write(
    s: StorageView,
    command: CommandView,
    k: Text,
    kind: Kind,
    now: u64,
)
    requires
        !holds(s, k, kind),
        !writes(command, k, kind),
    ensures
        !holds(effect(s, command, now), k, kind),
{
    match command {
        CommandView::MSet(pairs) => {
            lemma_mset_writes_strings(s, pairs, k, now);
        },
        CommandView::MGet(keys) => {
            lemma_evict_all_frame(s, keys, k, now);
        },
        CommandView::Del(keys) => {
            lemma_del_frame(s, keys, k, now);
        },
        _ => {},
    }
}

/// A key that no command of a sequence has written a variant to holds no
/// value of that variant afterwards, so that every read of the variant is
/// answered with the empty reply.
pub proof fn law_untargeted_key_stays_empty(
    s: StorageView,
    steps: Seq<(CommandView, u64)>,
    k: Text,
    kind: Kind,
)
    requires
        !holds(s, k, kind),
        forall|i: int| 0 <= i < steps.len() ==> !writes((#[trigger] steps[i]).0, k, kind),
    ensures
        !holds(run(s, steps), k, kind),
    decreases steps.len(),
{
    if steps.len() > 0 {
        let front = steps.drop_last();
        assert forall|i: int| 0 <= i < front.len() implies !writes(
            (#[trigger] front[i]).0,
            k,
            kind,
        ) by {
            assert(front[i] == steps[i]);
        }
        law_untargeted_key_stays_empty(s, front, k, kind);
        assert(!writes(steps[steps.len() - 1].0, k, kind));
        law_variant_needs_write(run(s, front), steps.last().0, k, kind, steps.last().1);
    }
}

/// A sequence without repeated items is its own deduplication.
pub proof fn lemma_dedup_keeps<A>(s: Seq<A>)
    requires
        s.no_duplicates(),
    ensures
        dedup(s) == s,
    decreases s.len(),
{
    if s.len() > 0 {
        let front = s.drop_last();
        assert(front.no_duplicates()) by {
            assert forall|i: int, j: int|
                0 <= i < front.len() && 0 <= j < front.len() && i != j implies front[i]
                != front[j] by {
                assert(front[i] == s[i] && front[j] == s[j]);
            }
        }
        lemma_dedup_keeps(front);
        assert(!front.contains(s.last())) by {
            if front.contains(s.last()) {
                let i = choose|i: int| 0 <= i < front.len() && front[i] == s.last();
                assert(s[i] == s[s.len() - 1]);
            }
        }
        assert(front.push(s.last()) =~= s);
    }
}

/// Pairs with distinct names are what entering them one after the other
/// yields.
pub proof fn lemma_collect_keeps<A, B>(pairs: Seq<(A, B)>)
    requires
        firsts(pairs).no_duplicates(),
    ensures
        collect(pairs) == pairs,
    decreases pairs.len(),
{
    if pairs.len() > 0 {
        let front = pairs.drop_last();
        assert(firsts(front) =~= firsts(pairs).drop_last());
        assert(firsts(front).no_duplicates()) by {
            assert forall|i: int, j: int|
                0 <= i < front.len() && 0 <= j < front.len() && i != j implies firsts(front)[i]
                != firsts(front)[j] by {
                assert(firsts(front)[i] == firsts(pairs)[i] && firsts(front)[j] == firsts(
                    pairs,
                )[j]);
            }
        }
        lemma_collect_keeps(front);
        assert(!firsts(front).contains(pairs.last().0)) by {
            if firsts(front).contains(pairs.last().0) {
                let i = choose|i: int|
                    0 <= i < firsts(front).len() && firsts(front)[i] == pairs.last().0;
                assert(firsts(pairs)[i] == firsts(pairs)[pairs.len() - 1]);
            }
        }
        assert(front.push(pairs.last()) =~= pairs);
    }
}

/// A value that meets its variant's invariant is installed as it is.
pub proof fn lemma_normalize_keeps(v: ValueView)
    requires
        v.wf(),
    ensures
        normalize(v) == v,
{
    match v {
        ValueView::Members(members) => {
            lemma_dedup_keeps(members);
        },
        ValueView::Hash(fields) => {
            lemma_collect_keeps(fields);
        },
        ValueView::SortedSet(members) => {
            lemma_collect_keeps(members);
        },
        _ => {},
    }
}

/// A listing with distinct keys, less its last pair, has distinct keys, and
/// none of them is the key of the last pair.
proof fn lemma_front_distinct<V>(s: Seq<(String, V)>)
    requires
        distinct(s),
        s.len() > 0,
    ensures
        distinct(s.drop_last()),
        !key_views(s.drop_last()).contains(s.last().0@),
        s.drop_last().push(s.last()) == s,
{
    let front = s.drop_last();
    assert(key_views(front) =~= key_views(s).drop_last());
    assert forall|i: int, j: int|
        0 <= i < front.len() && 0 <= j < front.len() && i != j implies key_views(front)[i]
        != key_views(front)[j] by {
        assert(key_views(s)[i] != key_views(s)[j]);
    }
    if key_views(front).contains(s.last().0@) {
        let i = choose|i: int| 0 <= i < front.len() && key_views(front)[i] == s.last().0@;
        assert(key_views(s)[i] == key_views(s)[s.len() - 1]);
    }
    assert(front.push(s.last()) =~= s);
}

/// Installing a listing that names each key once, with values that meet
/// their invariants, yields the map that the listing stands for.
pub proof fn lemma_install_values_keeps(data: Seq<(String, RedoxValue)>)
    requires
        distinct(data),
        forall|i: int| 0 <= i < data.len() ==> (#[trigger] data[i]).1@.wf(),
    ensures
        install_values(entry_views(data)) == as_map(data),
    decreases data.len(),
{
    if data.len() == 0 {
        assert(as_map(data) =~= Map::<Text, ValueView>::empty());
    } else {
        let front = data.drop_last();
        lemma_front_distinct(data);
        assert forall|i: int| 0 <= i < front.len() implies (#[trigger] front[i]).1@.wf() by {
            assert(front[i] == data[i]);
        }
        lemma_install_values_keeps(front);
        lemma_push(front, data.last());
        assert(entry_views(data).drop_last() =~= entry_views(front));
        assert(data[data.len() - 1].1@.wf());
        lemma_normalize_keeps(data.last().1@);
    }
}

/// Installing a listing of expiry seconds that names each key once, all of
/// them keys with a value, yields the map that the listing stands for.
pub proof fn lemma_install_expiry_keeps(expiry: Seq<(String, u64)>, keys: Set<Text>)
    requires
        distinct(expiry),
        forall|i: int| 0 <= i < expiry.len() ==> keys.contains((#[trigger] expiry[i]).0@),
    ensures
        install_expiry(entry_views(expiry), keys) == as_map(expiry),
    decreases expiry.len(),
{
    if expiry.len() == 0 {
        assert(as_map(expiry) =~= Map::<Text, u64>::empty());
    } else {
        let front = expiry.drop_last();
        lemma_front_distinct(expiry);
        assert forall|i: int| 0 <= i < front.len() implies keys.contains(
            (#[trigger] front[i]).0@,
        ) by {
            assert(front[i] == expiry[i]);
        }
        lemma_install_expiry_keeps(front, keys);
        lemma_push(front, expiry.last());
        assert(entry_views(expiry).drop_last() =~= entry_views(front));
        assert(keys.contains(expiry[expiry.len() - 1].0@));
    }
}

/// A keyspace restored from its own contents is the keyspace: a listing
/// that names each key of a well-formed keyspace once, with its value and
/// its expiry second, restores both maps.
pub proof fn law_restore_keeps(
    s: StorageView,
    persistence: Option<PersistenceView>,
    data: Seq<(String, RedoxValue)>,
    expiry: Seq<(String, u64)>,
)
    requires
        s.wf(),
        distinct(data),
        distinct(expiry),
        as_map(data) == s.data,
        as_map(expiry) == s.expiry,
    ensures
        StorageView::restore(persistence, entry_views(data), entry_views(expiry)) == (StorageView {
            persistence,
            ..s
        }),
{
    assert forall|i: int| 0 <= i < data.len() implies (#[trigger] data[i]).1@.wf() by {
        lemma_lookup(data, i);
    }
    lemma_install_values_keeps(data);
    assert forall|i: int| 0 <= i < expiry.len() implies s.data.dom().contains(
        (#[trigger] expiry[i]).0@,
    ) by {
        lemma_lookup(expiry, i);
    }
    lemma_install_expiry_keeps(expiry, s.data.dom());
}

/// The empty replies as lines: a read of a key that holds no value of the
/// read's variant is answered with `NIL`, with 0 or with an empty line.
pub proof fn law_empty_replies(
    s: StorageView,
    k: Text,
    now: u64,
    start: i64,
    stop: i64,
    m: Text,
    min: ScoreView,
    max: ScoreView,
)
    ensures
        !holds(s, k, Kind::String) ==> response_line(answer(s, CommandView::Get { key: k }, now))
            == "NIL"@ + "\n"@,
        !holds(s, k, Kind::List) ==> {
            &&& response_line(answer(s, CommandView::LPop { key: k }, now)) == "NIL"@ + "\n"@
            &&& response_line(answer(s, CommandView::RPop { key: k }, now)) == "NIL"@ + "\n"@
            &&& response_line(answer(s, CommandView::LRange { key: k, start, stop }, now))
                == "\n"@
        },
        !holds(s, k, Kind::Members) ==> {
            &&& response_line(answer(s, CommandView::SMembers { key: k }, now)) == "\n"@
            &&& response_line(answer(s, CommandView::SIsMember { key: k, member: m }, now))
                == "0"@ + "\n"@
        },
        !holds(s, k, Kind::Hash) ==> {
            &&& response_line(answer(s, CommandView::HGet { key: k, field: m }, now)) == "NIL"@
                + "\n"@
            &&& response_line(answer(s, CommandView::HGetAll { key: k }, now)) == "\n"@
        },
        !holds(s, k, Kind::SortedSet) ==> {
            &&& response_line(answer(s, CommandView::ZRange { key: k, start, stop }, now))
                == "\n"@
            &&& response_line(answer(s, CommandView::ZRangeByScore { key: k, min, max }, now))
                == "\n"@
        },
{
    reveal_strlit("NIL");
    reveal_strlit("0");
    let none = Seq::<char>::empty();
    assert(none + "\n"@ =~= "\n"@);
    assert(crate::number::decimal(0) =~= "0"@);
    assert(crate::encode::join(Seq::<Text>::empty(), " "@) == none);
    assert(crate::encode::pair_tokens(Seq::<(Text, Text)>::empty()) =~= Seq::<Text>::empty());
    assert(crate::encode::scored_tokens(Seq::<(Text, ScoreView)>::empty()) =~= Seq::<
        Text,
    >::empty());
}

/// Whether two keyspaces hold the same values and expiry seconds.
pub open spec fn same_contents(a: StorageView, b: StorageView) -> bool {
    a.data == b.data && a.expiry == b.expiry
}

proof fn lemma_mset_marks(s: StorageView, pairs: Seq<(Text, Text)>, now: u64)
    ensures
        s.mset(pairs, now) == s || s.mset(pairs, now).persistence == s.touch().persistence,
    decreases pairs.len(),
{
    if pairs.len() > 0 {
        lemma_mset_marks(s, pairs.drop_last(), now);
    }
}

proof fn lemma_evict_all_marks(s: StorageView, keys: Seq<Text>, now: u64)
    ensures
        s.evict_all(keys, now) == s || s.evict_all(keys, now).persistence == s.touch().persistence,
    decreases keys.len(),
{
    if keys.len() > 0 {
        lemma_evict_all_marks(s, keys.drop_last(), now);
    }
}

proof fn lemma_del_marks(s: StorageView, keys: Seq<Text>, now: u64)
    ensures
        s.del(keys, now) == s || s.del(keys, now).persistence == s.touch().persistence,
    decreases keys.len(),
{
    if keys.len() > 0 {
        lemma_del_marks(s, keys.drop_last(), now);
    }
}

/// A command either leaves the keyspace as it is, or records a change for
/// the next snapshot and touches nothing else of the bookkeeping.
#[verifier::spinoff_prover]
#[verifier::rlimit(40)]
pub proof fn law_changes_are_recorded(s: StorageView, command: CommandView, now: u64)
    ensures
        effect(s, command, now) == s || effect(s, command, now).persistence
            == s.touch().persistence,
{
    match command {
        CommandView::MSet(pairs) => {
            lemma_mset_marks(s, pairs, now);
        },
        CommandView::MGet(keys) => {
            lemma_evict_all_marks(s, keys, now);
        },
        CommandView::Del(keys) => {
            lemma_del_marks(s, keys, now);
        },
        _ => {},
    }
}

/// A read changes nothing, unless it finds the expiry second of its key
/// come and evicts the key.
pub proof fn law_reads_change_nothing(
    s: StorageView,
    k: Text,
    now: u64,
    start: i64,
    stop: i64,
    m: Text,
    min: ScoreView,
    max: ScoreView,
)
    requires
        !s.expired(k, now),
    ensures
        effect(s, CommandView::Get { key: k }, now) == s,
        effect(s, CommandView::LRange { key: k, start, stop }, now) == s,
        effect(s, CommandView::SMembers { key: k }, now) == s,
        effect(s, CommandView::SIsMember { key: k, member: m }, now) == s,
        effect(s, CommandView::HGet { key: k, field: m }, now) == s,
        effect(s, CommandView::HGetAll { key: k }, now) == s,
        effect(s, CommandView::ZRange { key: k, start, stop }, now) == s,
        effect(s, CommandView::ZRangeByScore { key: k, min, max }, now) == s,
        effect(s, CommandView::MGet(seq![k]), now) == s,
{
    assert(seq![k].drop_last() =~= Seq::<Text>::empty());
    assert(s.evict_all(seq![k], now) == s.evict_all(Seq::<Text>::empty(), now).evict(k, now));
}

} // verus!
