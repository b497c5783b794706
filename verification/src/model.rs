//! The keyspace as a mathematical object: finite maps from keys to values
//! and to expiry seconds, and what each operation makes of them.
//!
//! Every operation on a key first evicts the key if its expiry second has
//! come; what it then finds under the key decides what it does. A value of
//! another variant than the operation's own is left alone and answered with
//! the empty reply.

use vstd::prelude::*;
use crate::number::decimal;
use crate::order::{sorted_order, Key};
use crate::range::range_of;
use crate::score::rank;
use crate::value::{firsts, Kind, ValueView};

verus! {

/// A key, a member, a field or a string value.
pub type Text = Seq<char>;

/// A score: its bit pattern and its decimal text.
pub type ScoreView = (u64, Seq<char>);

/// The snapshot bookkeeping of a keyspace.
pub struct PersistenceView {
    pub file_path: Text,
    pub save_interval: u64,
    pub last_save: u64,
    pub dirty: bool,
}

/// The keyspace.
pub struct StorageView {
    /// The value under each key.
    pub data: Map<Text, ValueView>,
    /// The second at which a key expires, for the keys that have one.
    pub expiry: Map<Text, u64>,
    /// The snapshot bookkeeping, where snapshots are enabled.
    pub persistence: Option<PersistenceView>,
}

/// The five counters of a keyspace, with their total.
pub struct Census {
    pub keys: nat,
    pub strings: nat,
    pub lists: nat,
    pub sets: nat,
    pub hashes: nat,
    pub zsets: nat,
}

impl Census {
    /// The counters as named decimal numbers, by ascending name.
    pub open spec fn pairs(self) -> Seq<(Text, Text)> {
        seq![
            ("hashes"@, decimal(self.hashes)),
            ("keys"@, decimal(self.keys)),
            ("lists"@, decimal(self.lists)),
            ("sets"@, decimal(self.sets)),
            ("strings"@, decimal(self.strings)),
            ("zsets"@, decimal(self.zsets)),
        ]
    }
}

/// The keys under which `data` holds a value of the given variant.
pub open spec fn keys_of(data: Map<Text, ValueView>, kind: Kind) -> Set<Text> {
    data.dom().filter(|k: Text| data[k].kind() == kind)
}

/// `s` without its item at the first position that holds `x`.
pub open spec fn without<A>(s: Seq<A>, x: A) -> Seq<A> {
    if s.contains(x) {
        s.remove(s.index_of(x))
    } else {
        s
    }
}

/// The value that `pairs` hold under `name`, if any.
pub open spec fn entry<A, B>(pairs: Seq<(A, B)>, name: A) -> Option<B> {
    if firsts(pairs).contains(name) {
        Some(pairs[firsts(pairs).index_of(name)].1)
    } else {
        None
    }
}

/// `pairs` with `value` under `name`: in place of the value that `name` had,
/// or as a new last pair.
pub open spec fn with_entry<A, B>(pairs: Seq<(A, B)>, name: A, value: B) -> Seq<(A, B)> {
    if firsts(pairs).contains(name) {
        pairs.update(firsts(pairs).index_of(name), (name, value))
    } else {
        pairs.push((name, value))
    }
}

/// `pairs` without the pair of `name`.
pub open spec fn without_entry<A, B>(pairs: Seq<(A, B)>, name: A) -> Seq<(A, B)> {
    if firsts(pairs).contains(name) {
        pairs.remove(firsts(pairs).index_of(name))
    } else {
        pairs
    }
}

/// `s` without the later occurrences of items that occur more than once.
pub open spec fn dedup<A>(s: Seq<A>) -> Seq<A>
    decreases s.len(),
{
    if s.len() == 0 {
        s
    } else if dedup(s.drop_last()).contains(s.last()) {
        dedup(s.drop_last())
    } else {
        dedup(s.drop_last()).push(s.last())
    }
}

/// The pairs entered one after the other: a name that occurs again takes
/// the later value, at the place of its first occurrence.
pub open spec fn collect<A, B>(pairs: Seq<(A, B)>) -> Seq<(A, B)>
    decreases pairs.len(),
{
    if pairs.len() == 0 {
        pairs
    } else {
        with_entry(collect(pairs.drop_last()), pairs.last().0, pairs.last().1)
    }
}

/// A value as it is installed from a snapshot: a set without repeated
/// members, a hash or a sorted set with each name once.
pub open spec fn normalize(v: ValueView) -> ValueView {
    match v {
        ValueView::Members(members) => ValueView::Members(dedup(members)),
        ValueView::Hash(fields) => ValueView::Hash(collect(fields)),
        ValueView::SortedSet(members) => ValueView::SortedSet(collect(members)),
        _ => v,
    }
}

/// The values of a snapshot, entered one after the other: a key that occurs
/// again takes the later value.
pub open spec fn install_values(data: Seq<(Text, ValueView)>) -> Map<Text, ValueView>
    decreases data.len(),
{
    if data.len() == 0 {
        Map::empty()
    } else {
        install_values(data.drop_last()).insert(data.last().0, normalize(data.last().1))
    }
}

/// The expiry seconds of a snapshot, entered one after the other, but for
/// those of keys that have no value.
pub open spec fn install_expiry(expiry: Seq<(Text, u64)>, keys: Set<Text>) -> Map<Text, u64>
    decreases expiry.len(),
{
    if expiry.len() == 0 {
        Map::empty()
    } else if keys.contains(expiry.last().0) {
        install_expiry(expiry.drop_last(), keys).insert(expiry.last().0, expiry.last().1)
    } else {
        install_expiry(expiry.drop_last(), keys)
    }
}

/// The sort keys of scored members: the score's place in the total order,
/// then the member.
pub open spec fn score_keys(members: Seq<(Text, ScoreView)>) -> Seq<Key> {
    members.map_values(|p: (Text, ScoreView)| (rank(p.1.0), p.0))
}

/// Scored members by ascending score, members of equal score by ascending
/// member.
pub open spec fn by_score(members: Seq<(Text, ScoreView)>) -> Seq<(Text, ScoreView)> {
    sorted_order(score_keys(members)).map_values(|i: int| members[i])
}

/// Whether a score lies between `min` and `max`, both included.
pub open spec fn score_within(score: ScoreView, min: ScoreView, max: ScoreView) -> bool {
    rank(min.0) <= rank(score.0) <= rank(max.0)
}

impl StorageView {
    /// Expiry entries exist only for keys that have a value, both maps are
    /// finite, and every value meets its variant's invariant.
    pub open spec fn wf(self) -> bool {
        &&& self.data.dom().finite()
        &&& self.expiry.dom().finite()
        &&& self.expiry.dom().subset_of(self.data.dom())
        &&& forall|k: Text| self.data.dom().contains(k) ==> (#[trigger] self.data[k]).wf()
    }

    /// The keyspace with nothing in it.
    pub open spec fn empty(persistence: Option<PersistenceView>) -> StorageView {
        StorageView { data: Map::empty(), expiry: Map::empty(), persistence }
    }

    /// The keyspace that a snapshot yields.
    pub open spec fn restore(
        persistence: Option<PersistenceView>,
        data: Seq<(Text, ValueView)>,
        expiry: Seq<(Text, u64)>,
    ) -> StorageView {
        StorageView {
            data: install_values(data),
            expiry: install_expiry(expiry, install_values(data).dom()),
            persistence,
        }
    }

    /// The keyspace after a completed save at second `now`: no change
    /// awaits the next one.
    pub open spec fn saved(self, now: u64) -> StorageView {
        match self.persistence {
            Some(p) => StorageView {
                persistence: Some(PersistenceView { dirty: false, last_save: now, ..p }),
                ..self
            },
            None => self,
        }
    }

    /// Whether the expiry second of `k` has come.
    pub open spec fn expired(self, k: Text, now: u64) -> bool {
        self.expiry.dom().contains(k) && self.expiry[k] <= now
    }

    /// Whether `k` is observable: it has a value, and no expiry second that
    /// has come.
    pub open spec fn live(self, k: Text, now: u64) -> bool {
        self.data.dom().contains(k) && !self.expired(k, now)
    }

    /// The keyspace with a change recorded for the next snapshot.
    pub open spec fn touch(self) -> StorageView {
        match self.persistence {
            Some(p) => StorageView {
                persistence: Some(PersistenceView { dirty: true, ..p }),
                ..self
            },
            None => self,
        }
    }

    /// Whether a change awaits the next snapshot.
    pub open spec fn dirty(self) -> bool {
        match self.persistence {
            Some(p) => p.dirty,
            None => false,
        }
    }

    /// The keyspace without `k`.
    pub open spec fn drop_key(self, k: Text) -> StorageView {
        StorageView { data: self.data.remove(k), expiry: self.expiry.remove(k), ..self }.touch()
    }

    /// Lazy eviction: the keyspace without `k` if its expiry second has come.
    pub open spec fn evict(self, k: Text, now: u64) -> StorageView {
        if self.expired(k, now) {
            self.drop_key(k)
        } else {
            self
        }
    }

    /// The value under `k`, without regard to expiry.
    pub open spec fn lookup(self, k: Text) -> Option<ValueView> {
        if self.data.dom().contains(k) {
            Some(self.data[k])
        } else {
            None
        }
    }

    /// The value that an operation at second `now` finds under `k`.
    pub open spec fn at(self, k: Text, now: u64) -> Option<ValueView> {
        self.evict(k, now).lookup(k)
    }

    /// The keyspace with `v` under `k`.
    pub open spec fn store(self, k: Text, v: ValueView) -> StorageView {
        StorageView { data: self.data.insert(k, v), ..self }.touch()
    }

    /// The keyspace after an operation at second `now` has put `v` under `k`.
    pub open spec fn put(self, k: Text, v: ValueView, now: u64) -> StorageView {
        self.evict(k, now).store(k, v)
    }

    // Strings

    /// `SET`: the string `v` under `k`, whatever `k` held.
    pub open spec fn set_string(self, k: Text, v: Text, now: u64) -> StorageView {
        self.put(k, ValueView::String(v), now)
    }

    /// `GET`: the string under `k`, if `k` holds one.
    pub open spec fn get_string(self, k: Text, now: u64) -> Option<Text> {
        match self.at(k, now) {
            Some(ValueView::String(s)) => Some(s),
            _ => None,
        }
    }

    // Lists

    /// The list that a push at `k` extends: the one under `k`, an empty one
    /// where `k` has no value, none where `k` holds another variant.
    pub open spec fn list_to_extend(self, k: Text, now: u64) -> Option<Seq<Text>> {
        match self.at(k, now) {
            None => Some(Seq::empty()),
            Some(ValueView::List(items)) => Some(items),
            Some(_) => None,
        }
    }

    /// The list under `k`, if `k` holds one.
    pub open spec fn list_at(self, k: Text, now: u64) -> Option<Seq<Text>> {
        match self.at(k, now) {
            Some(ValueView::List(items)) => Some(items),
            _ => None,
        }
    }

    /// `LPUSH` enters `v` before the first item.
    pub open spec fn lpush(self, k: Text, v: Text, now: u64) -> StorageView {
        match self.list_to_extend(k, now) {
            Some(items) => self.put(k, ValueView::List(seq![v] + items), now),
            None => self.evict(k, now),
        }
    }

    /// `RPUSH` enters `v` behind the last item.
    pub open spec fn rpush(self, k: Text, v: Text, now: u64) -> StorageView {
        match self.list_to_extend(k, now) {
            Some(items) => self.put(k, ValueView::List(items.push(v)), now),
            None => self.evict(k, now),
        }
    }

    /// Length of the list after a push; 0 where `k` holds another variant.
    pub open spec fn push_len(self, k: Text, now: u64) -> nat {
        match self.list_to_extend(k, now) {
            Some(items) => items.len() + 1,
            None => 0,
        }
    }

    /// `LPOP` takes the item at the first position.
    pub open spec fn lpop(self, k: Text, now: u64) -> StorageView {
        match self.list_at(k, now) {
            Some(items) => if items.len() > 0 {
                self.put(k, ValueView::List(items.drop_first()), now)
            } else {
                self.evict(k, now)
            },
            None => self.evict(k, now),
        }
    }

    /// The item that `LPOP` returns.
    pub open spec fn lpop_result(self, k: Text, now: u64) -> Option<Text> {
        match self.list_at(k, now) {
            Some(items) => if items.len() > 0 {
                Some(items.first())
            } else {
                None
            },
            None => None,
        }
    }

    /// `RPOP` takes the item at the last position.
    pub open spec fn rpop(self, k: Text, now: u64) -> StorageView {
        match self.list_at(k, now) {
            Some(items) => if items.len() > 0 {
                self.put(k, ValueView::List(items.drop_last()), now)
            } else {
                self.evict(k, now)
            },
            None => self.evict(k, now),
        }
    }

    /// The item that `RPOP` returns.
    pub open spec fn rpop_result(self, k: Text, now: u64) -> Option<Text> {
        match self.list_at(k, now) {
            Some(items) => if items.len() > 0 {
                Some(items.last())
            } else {
                None
            },
            None => None,
        }
    }

    /// `LRANGE`: the selected items of the list under `k`, if `k` holds one.
    pub open spec fn lrange(self, k: Text, start: int, stop: int, now: u64) -> Option<Seq<Text>> {
        match self.list_at(k, now) {
            Some(items) => Some(range_of(items, start, stop)),
            None => None,
        }
    }

    // Sets

    /// The set that `SADD` at `k` extends: the one under `k`, an empty one
    /// where `k` has no value, none where `k` holds another variant.
    pub open spec fn members_to_extend(self, k: Text, now: u64) -> Option<Seq<Text>> {
        match self.at(k, now) {
            None => Some(Seq::empty()),
            Some(ValueView::Members(members)) => Some(members),
            Some(_) => None,
        }
    }

    /// The set under `k`, if `k` holds one.
    pub open spec fn members_at(self, k: Text, now: u64) -> Option<Seq<Text>> {
        match self.at(k, now) {
            Some(ValueView::Members(members)) => Some(members),
            _ => None,
        }
    }

    /// Whether `SADD` adds `m`: `k` holds a set, or nothing, and `m` is not
    /// in it.
    pub open spec fn sadd_adds(self, k: Text, m: Text, now: u64) -> bool {
        match self.members_to_extend(k, now) {
            Some(members) => !members.contains(m),
            None => false,
        }
    }

    /// `SADD` enters `m` behind the members, unless it is one of them.
    pub open spec fn sadd(self, k: Text, m: Text, now: u64) -> StorageView {
        if self.sadd_adds(k, m, now) {
            self.put(k, ValueView::Members(self.members_to_extend(k, now)->0.push(m)), now)
        } else {
            self.evict(k, now)
        }
    }

    /// `SISMEMBER`: whether `k` holds a set with `m` in it.
    pub open spec fn sismember(self, k: Text, m: Text, now: u64) -> bool {
        match self.members_at(k, now) {
            Some(members) => members.contains(m),
            None => false,
        }
    }

    /// `SREM` takes `m` out of the set.
    pub open spec fn srem(self, k: Text, m: Text, now: u64) -> StorageView {
        if self.sismember(k, m, now) {
            self.put(k, ValueView::Members(without(self.members_at(k, now)->0, m)), now)
        } else {
            self.evict(k, now)
        }
    }

    // Hashes

    /// The hash that `HSET` at `k` extends: the one under `k`, an empty one
    /// where `k` has no value, none where `k` holds another variant.
    pub open spec fn fields_to_extend(self, k: Text, now: u64) -> Option<Seq<(Text, Text)>> {
        match self.at(k, now) {
            None => Some(Seq::empty()),
            Some(ValueView::Hash(fields)) => Some(fields),
            Some(_) => None,
        }
    }

    /// The hash under `k`, if `k` holds one.
    pub open spec fn fields_at(self, k: Text, now: u64) -> Option<Seq<(Text, Text)>> {
        match self.at(k, now) {
            Some(ValueView::Hash(fields)) => Some(fields),
            _ => None,
        }
    }

    /// `HSET` puts `v` under the field `f`.
    pub open spec fn hset(self, k: Text, f: Text, v: Text, now: u64) -> StorageView {
        match self.fields_to_extend(k, now) {
            Some(fields) => self.put(k, ValueView::Hash(with_entry(fields, f, v)), now),
            None => self.evict(k, now),
        }
    }

    /// Whether `HSET` creates the field: `k` holds a hash, or nothing, and
    /// the field is not in it.
    pub open spec fn hset_creates(self, k: Text, f: Text, now: u64) -> bool {
        match self.fields_to_extend(k, now) {
            Some(fields) => entry(fields, f).is_none(),
            None => false,
        }
    }

    /// `HGET`: the value under the field `f` of the hash under `k`.
    pub open spec fn hget(self, k: Text, f: Text, now: u64) -> Option<Text> {
        match self.fields_at(k, now) {
            Some(fields) => entry(fields, f),
            None => None,
        }
    }

    /// Whether `HDEL` removes the field: `k` holds a hash with it.
    pub open spec fn hdel_removes(self, k: Text, f: Text, now: u64) -> bool {
        self.hget(k, f, now).is_some()
    }

    /// `HDEL` takes the field `f` out of the hash.
    pub open spec fn hdel(self, k: Text, f: Text, now: u64) -> StorageView {
        if self.hdel_removes(k, f, now) {
            self.put(k, ValueView::Hash(without_entry(self.fields_at(k, now)->0, f)), now)
        } else {
            self.evict(k, now)
        }
    }

    // Sorted sets

    /// The sorted set that `ZADD` at `k` extends: the one under `k`, an empty
    /// one where `k` has no value, none where `k` holds another variant.
    pub open spec fn scored_to_extend(self, k: Text, now: u64) -> Option<Seq<(Text, ScoreView)>> {
        match self.at(k, now) {
            None => Some(Seq::empty()),
            Some(ValueView::SortedSet(members)) => Some(members),
            Some(_) => None,
        }
    }

    /// The sorted set under `k`, if `k` holds one.
    pub open spec fn scored_at(self, k: Text, now: u64) -> Option<Seq<(Text, ScoreView)>> {
        match self.at(k, now) {
            Some(ValueView::SortedSet(members)) => Some(members),
            _ => None,
        }
    }

    /// `ZADD` puts `score` under the member `m`.
    pub open spec fn zadd(self, k: Text, score: ScoreView, m: Text, now: u64) -> StorageView {
        match self.scored_to_extend(k, now) {
            Some(members) => self.put(k, ValueView::SortedSet(with_entry(members, m, score)), now),
            None => self.evict(k, now),
        }
    }

    /// Whether `ZADD` adds the member rather than replacing its score.
    pub open spec fn zadd_adds(self, k: Text, m: Text, now: u64) -> bool {
        match self.scored_to_extend(k, now) {
            Some(members) => entry(members, m).is_none(),
            None => false,
        }
    }

    /// Whether `ZREM` removes the member: `k` holds a sorted set with it.
    pub open spec fn zrem_removes(self, k: Text, m: Text, now: u64) -> bool {
        match self.scored_at(k, now) {
            Some(members) => entry(members, m).is_some(),
            None => false,
        }
    }

    /// `ZREM` takes the member `m` out of the sorted set.
    pub open spec fn zrem(self, k: Text, m: Text, now: u64) -> StorageView {
        if self.zrem_removes(k, m, now) {
            self.put(k, ValueView::SortedSet(without_entry(self.scored_at(k, now)->0, m)), now)
        } else {
            self.evict(k, now)
        }
    }

    /// `ZRANGE`: the selected positions of the sorted set under `k` in the
    /// order of its scores, if `k` holds one.
    pub open spec fn zrange(self, k: Text, start: int, stop: int, now: u64) -> Option<
        Seq<(Text, ScoreView)>,
    > {
        match self.scored_at(k, now) {
            Some(members) => Some(range_of(by_score(members), start, stop)),
            None => None,
        }
    }

    /// `ZRANGEBYSCORE`: the members of the sorted set under `k` whose score
    /// lies between `min` and `max`, in the order of their scores.
    pub open spec fn zrangebyscore(self, k: Text, min: ScoreView, max: ScoreView, now: u64)
        -> Option<Seq<(Text, ScoreView)>> {
        match self.scored_at(k, now) {
            Some(members) => Some(
                by_score(members).filter(|p: (Text, ScoreView)| score_within(p.1, min, max)),
            ),
            None => None,
        }
    }

    // Several keys

    /// `MSET` writes the pairs in order.
    pub open spec fn mset(self, pairs: Seq<(Text, Text)>, now: u64) -> StorageView
        decreases pairs.len(),
    {
        if pairs.len() == 0 {
            self
        } else {
            self.mset(pairs.drop_last(), now).set_string(pairs.last().0, pairs.last().1, now)
        }
    }

    /// The keyspace after each of `keys` has been evicted if its time had come.
    pub open spec fn evict_all(self, keys: Seq<Text>, now: u64) -> StorageView
        decreases keys.len(),
    {
        if keys.len() == 0 {
            self
        } else {
            self.evict_all(keys.drop_last(), now).evict(keys.last(), now)
        }
    }

    /// `MGET`: for each key what `GET` returns for it.
    pub open spec fn mget(self, keys: Seq<Text>, now: u64) -> Seq<Option<Text>> {
        keys.map_values(|k: Text| self.get_string(k, now))
    }

    /// `DEL` of one key.
    pub open spec fn del_one(self, k: Text, now: u64) -> StorageView {
        if self.live(k, now) {
            self.drop_key(k)
        } else {
            self.evict(k, now)
        }
    }

    /// `DEL` removes the keys in order.
    pub open spec fn del(self, keys: Seq<Text>, now: u64) -> StorageView
        decreases keys.len(),
    {
        if keys.len() == 0 {
            self
        } else {
            self.del(keys.drop_last(), now).del_one(keys.last(), now)
        }
    }

    /// Number of keys that `DEL` removes: those that were observable when
    /// their turn came.
    pub open spec fn del_count(self, keys: Seq<Text>, now: u64) -> nat
        decreases keys.len(),
    {
        if keys.len() == 0 {
            0
        } else {
            self.del_count(keys.drop_last(), now) + if self.del(keys.drop_last(), now).live(
                keys.last(),
                now,
            ) {
                1nat
            } else {
                0nat
            }
        }
    }

    // Expiry

    /// `EXPIRE` lets an observable key expire `seconds` from `now`.
    pub open spec fn expire(self, k: Text, seconds: u64, now: u64) -> StorageView {
        if self.live(k, now) {
            StorageView {
                expiry: self.expiry.insert(k, (now + seconds) as u64),
                ..self
            }.touch()
        } else {
            self.evict(k, now)
        }
    }

    /// Seconds until `k` expires, capped at the largest `i64`; -1 if its
    /// time has come; nothing if it has no expiry second.
    pub open spec fn ttl(self, k: Text, now: u64) -> Option<i64> {
        if !self.expiry.dom().contains(k) {
            None
        } else if self.expiry[k] <= now {
            Some(-1i64)
        } else if self.expiry[k] - now > i64::MAX {
            Some(i64::MAX)
        } else {
            Some((self.expiry[k] - now) as i64)
        }
    }

    /// Whether `PERSIST` clears an expiry second.
    pub open spec fn persist_clears(self, k: Text, now: u64) -> bool {
        self.expiry.dom().contains(k) && self.expiry[k] > now
    }

    /// `PERSIST` clears the expiry second of `k`.
    pub open spec fn persist(self, k: Text, now: u64) -> StorageView {
        if self.persist_clears(k, now) {
            StorageView { expiry: self.expiry.remove(k), ..self }.touch()
        } else {
            self.evict(k, now)
        }
    }

    /// The keys whose expiry second has come.
    pub open spec fn expired_keys(self, now: u64) -> Set<Text> {
        Set::new(|k: Text| self.expired(k, now))
    }

    /// The sweep: the keyspace without the keys whose time has come.
    pub open spec fn sweep(self, now: u64) -> StorageView {
        if self.expired_keys(now) =~= Set::empty() {
            self
        } else {
            StorageView {
                data: self.data.remove_keys(self.expired_keys(now)),
                expiry: self.expiry.remove_keys(self.expired_keys(now)),
                ..self
            }.touch()
        }
    }

    /// The observable keys.
    pub open spec fn live_keys(self, now: u64) -> Set<Text> {
        Set::new(|k: Text| self.live(k, now))
    }

    /// The counters of the keyspace as it stands.
    pub open spec fn census(self) -> Census {
        Census {
            keys: self.data.dom().len(),
            strings: keys_of(self.data, Kind::String).len(),
            lists: keys_of(self.data, Kind::List).len(),
            sets: keys_of(self.data, Kind::Members).len(),
            hashes: keys_of(self.data, Kind::Hash).len(),
            zsets: keys_of(self.data, Kind::SortedSet).len(),
        }
    }
}

/// Evicting one key does not change what an operation finds under any key.
pub proof fn lemma_evict_keeps_at(s: StorageView, j: Text, k: Text, now: u64)
    ensures
        s.evict(j, now).at(k, now) == s.at(k, now),
{
}

/// Evicting several keys does not change what an operation finds under any
/// key.
pub proof fn lemma_evict_all_keeps_at(s: StorageView, keys: Seq<Text>, k: Text, now: u64)
    ensures
        s.evict_all(keys, now).at(k, now) == s.at(k, now),
    decreases keys.len(),
{
    if keys.len() > 0 {
        lemma_evict_all_keeps_at(s, keys.drop_last(), k, now);
        lemma_evict_keeps_at(s.evict_all(keys.drop_last(), now), keys.last(), k, now);
    }
}

} // verus!
