use redox::persistence::{LoadError, Persistence, Snapshot};
use redox::score::Score;
use redox::storage::Storage;
use redox::value::RedoxValue;

fn num(value: f64) -> Score {
    Score::new(value.to_bits(), format!("{}", value)).unwrap()
}

fn s(text: &str) -> String {
    text.to_string()
}

fn fresh() -> Storage {
    Storage::empty(Some(Persistence::new(s("data.json"), 60)))
}

fn info_of(store: &mut Storage, now: u64) -> Vec<(String, String)> {
    store.info(now)
}

fn counters(keys: u32, strings: u32, lists: u32, sets: u32, hashes: u32, zsets: u32) -> Vec<(String, String)> {
    vec![
        (s("hashes"), hashes.to_string()),
        (s("keys"), keys.to_string()),
        (s("lists"), lists.to_string()),
        (s("sets"), sets.to_string()),
        (s("strings"), strings.to_string()),
        (s("zsets"), zsets.to_string()),
    ]
}

fn names(pairs: &[(String, Score)]) -> Vec<String> {
    pairs.iter().map(|p| p.0.clone()).collect()
}

#[test]
fn get_after_set_returns_the_value() {
    let mut store = fresh();
    store.set_string(s("testkey"), s("hello"), 100);
    assert_eq!(store.get_string("testkey", 100), Some(s("hello")));
    assert_eq!(store.get_string("testkey", 1_000_000), Some(s("hello")));
    store.set_string(s("testkey"), s("again"), 101);
    assert_eq!(store.get_string("testkey", 101), Some(s("again")));
}

#[test]
fn get_of_missing_key_is_none() {
    let mut store = fresh();
    assert_eq!(store.get_string("missing", 0), None);
}

#[test]
fn get_after_set_survives_commands_on_other_keys() {
    let mut store = fresh();
    store.set_string(s("k"), s("v"), 1);
    store.lpush(s("l"), s("x"), 2);
    store.sadd(s("set"), s("m"), 3);
    store.set_string(s("other"), s("w"), 4);
    store.del(&vec![s("other"), s("l")], 5);
    store.info(6);
    assert_eq!(store.get_string("k", 7), Some(s("v")));
}

#[test]
fn set_overwrites_any_variant() {
    let mut store = fresh();
    store.lpush(s("k"), s("x"), 1);
    store.set_string(s("k"), s("v"), 2);
    assert_eq!(store.get_string("k", 3), Some(s("v")));
    assert_eq!(store.lrange("k", 0, -1, 3), None);
}

#[test]
fn reads_of_another_variant_are_empty() {
    let mut store = fresh();
    store.set_string(s("str"), s("v"), 1);
    store.lpush(s("list"), s("v"), 1);
    assert_eq!(store.get_string("list", 2), None);
    assert_eq!(store.lrange("str", 0, -1, 2), None);
    assert_eq!(store.lpop("str", 2), None);
    assert_eq!(store.rpop("str", 2), None);
    assert_eq!(store.smembers("str", 2), None);
    assert!(!store.sismember("str", "v", 2));
    assert_eq!(store.hget("str", "f", 2), None);
    assert_eq!(store.hgetall("list", 2), None);
    assert_eq!(store.zrange("str", 0, -1, 2), None);
    assert_eq!(store.zrangebyscore("list", &num(0.0), &num(1.0), 2), None);
    assert_eq!(store.get_string("str", 2), Some(s("v")));
    assert_eq!(store.lrange("list", 0, -1, 2), Some(vec![s("v")]));
}

#[test]
fn writes_of_another_variant_change_nothing() {
    let mut store = fresh();
    store.set_string(s("str"), s("v"), 1);
    assert_eq!(store.lpush(s("str"), s("x"), 2), 0);
    assert_eq!(store.rpush(s("str"), s("x"), 2), 0);
    assert!(!store.sadd(s("str"), s("x"), 2));
    assert!(!store.srem("str", "x", 2));
    assert!(!store.hset(s("str"), s("f"), s("x"), 2));
    assert!(!store.hdel("str", "f", 2));
    assert!(!store.zadd(s("str"), num(1.0), s("x"), 2));
    assert!(!store.zrem("str", "x", 2));
    assert_eq!(store.get_string("str", 3), Some(s("v")));
    assert_eq!(info_of(&mut store, 3), counters(1, 1, 0, 0, 0, 0));
}

#[test]
fn list_pushes_and_pops() {
    let mut store = fresh();
    assert_eq!(store.lpush(s("mylist"), s("world"), 1), 1);
    assert_eq!(store.lpush(s("mylist"), s("hello"), 1), 2);
    assert_eq!(store.lrange("mylist", 0, -1, 1), Some(vec![s("hello"), s("world")]));
    assert_eq!(store.rpush(s("mylist"), s("!"), 1), 3);
    assert_eq!(store.lrange("mylist", 0, -1, 1), Some(vec![s("hello"), s("world"), s("!")]));
    assert_eq!(store.lpop("mylist", 1), Some(s("hello")));
    assert_eq!(store.rpop("mylist", 1), Some(s("!")));
    assert_eq!(store.lrange("mylist", 0, -1, 1), Some(vec![s("world")]));
    assert_eq!(store.rpop("mylist", 1), Some(s("world")));
    assert_eq!(store.lpop("mylist", 1), None);
    assert_eq!(store.rpop("mylist", 1), None);
}

#[test]
fn rpush_creates_the_list() {
    let mut store = fresh();
    assert_eq!(store.rpush(s("l"), s("a"), 1), 1);
    assert_eq!(store.rpush(s("l"), s("a"), 1), 2);
    assert_eq!(store.lrange("l", 0, -1, 1), Some(vec![s("a"), s("a")]));
}

#[test]
fn emptied_list_stays_a_list() {
    let mut store = fresh();
    store.lpush(s("l"), s("a"), 1);
    store.lpop("l", 1);
    assert_eq!(store.lrange("l", 0, -1, 1), Some(vec![]));
    assert_eq!(store.lrange("l", 0, 0, 1), Some(vec![]));
    assert_eq!(info_of(&mut store, 1), counters(1, 0, 1, 0, 0, 0));
    assert_eq!(store.get_string("l", 1), None);
}

#[test]
fn lrange_boundaries() {
    let mut store = fresh();
    for item in ["a", "b", "c", "d", "e"] {
        store.rpush(s("l"), s(item), 1);
    }
    assert_eq!(store.lrange("l", 1, 3, 1), Some(vec![s("b"), s("c"), s("d")]));
    assert_eq!(store.lrange("l", -2, -1, 1), Some(vec![s("d"), s("e")]));
    assert_eq!(store.lrange("l", -100, 1, 1), Some(vec![s("a"), s("b")]));
    assert_eq!(store.lrange("l", 3, 100, 1), Some(vec![s("d"), s("e")]));
    assert_eq!(store.lrange("l", 100, 200, 1), Some(vec![s("e")]));
    assert_eq!(store.lrange("l", 3, 1, 1), Some(vec![]));
    assert_eq!(store.lrange("l", -1, 0, 1), Some(vec![]));
    assert_eq!(store.lrange("l", 2, 2, 1), Some(vec![s("c")]));
    assert_eq!(store.lrange("missing", 0, -1, 1), None);
}

#[test]
fn set_membership() {
    let mut store = fresh();
    assert!(store.sadd(s("myset"), s("member1"), 1));
    assert!(!store.sadd(s("myset"), s("member1"), 1));
    assert!(store.sismember("myset", "member1", 1));
    assert!(store.sadd(s("myset"), s("member2"), 1));
    assert_eq!(store.smembers("myset", 1), Some(vec![s("member1"), s("member2")]));
    assert!(store.srem("myset", "member1", 1));
    assert!(!store.sismember("myset", "member1", 1));
    assert!(!store.srem("myset", "member1", 1));
    assert_eq!(store.smembers("myset", 1), Some(vec![s("member2")]));
    assert!(!store.srem("missing", "m", 1));
    assert!(!store.sismember("missing", "m", 1));
    assert_eq!(store.smembers("missing", 1), None);
}

#[test]
fn hash_fields() {
    let mut store = fresh();
    assert!(store.hset(s("user:1"), s("name"), s("luna"), 1));
    assert!(store.hset(s("user:1"), s("age"), s("21"), 1));
    assert_eq!(store.hget("user:1", "name", 1), Some(s("luna")));
    assert_eq!(store.hget("user:1", "none", 1), None);
    assert_eq!(
        store.hgetall("user:1", 1),
        Some(vec![(s("name"), s("luna")), (s("age"), s("21"))])
    );
    assert!(store.hdel("user:1", "age", 1));
    assert!(!store.hdel("user:1", "age", 1));
    assert_eq!(store.hgetall("user:1", 1), Some(vec![(s("name"), s("luna"))]));
    assert!(!store.hdel("missing", "f", 1));
}

#[test]
fn hset_of_existing_field_replaces_and_returns_false() {
    let mut store = fresh();
    assert!(store.hset(s("h"), s("f"), s("one"), 1));
    assert!(store.hset(s("h"), s("g"), s("two"), 1));
    store.record_save(1);
    assert!(!store.hset(s("h"), s("f"), s("three"), 1));
    assert_eq!(store.hget("h", "f", 1), Some(s("three")));
    assert_eq!(store.hgetall("h", 1), Some(vec![(s("f"), s("three")), (s("g"), s("two"))]));
    assert!(store.save_due());
}

#[test]
fn empty_hash_after_last_field_is_deleted() {
    let mut store = fresh();
    store.hset(s("h"), s("f"), s("v"), 1);
    assert!(store.hdel("h", "f", 1));
    assert_eq!(store.hgetall("h", 1), Some(vec![]));
    assert_eq!(store.hget("h", "f", 1), None);
    assert_eq!(info_of(&mut store, 1), counters(1, 0, 0, 0, 1, 0));
}

#[test]
fn sorted_set_ranges() {
    let mut store = fresh();
    assert!(store.zadd(s("scores"), num(66.0), s("user1"), 1));
    assert!(store.zadd(s("scores"), num(77.0), s("user2"), 1));
    assert!(store.zadd(s("scores"), num(88.0), s("user3"), 1));
    assert!(store.zadd(s("scores"), num(100.0), s("user4"), 1));
    assert!(store.zadd(s("scores"), num(99.0), s("user5"), 1));
    let all = store.zrange("scores", 0, -1, 1).unwrap();
    assert_eq!(
        all,
        vec![
            (s("user1"), num(66.0)),
            (s("user2"), num(77.0)),
            (s("user3"), num(88.0)),
            (s("user5"), num(99.0)),
            (s("user4"), num(100.0)),
        ]
    );
    let some = store.zrangebyscore("scores", &num(80.0), &num(100.0), 1).unwrap();
    assert_eq!(names(&some), vec![s("user3"), s("user5"), s("user4")]);
    let edge = store.zrangebyscore("scores", &num(77.0), &num(88.0), 1).unwrap();
    assert_eq!(names(&edge), vec![s("user2"), s("user3")]);
    let none = store.zrangebyscore("scores", &num(89.0), &num(98.0), 1).unwrap();
    assert_eq!(none, vec![]);
    let reversed = store.zrangebyscore("scores", &num(100.0), &num(66.0), 1).unwrap();
    assert_eq!(reversed, vec![]);
    assert_eq!(names(&store.zrange("scores", 1, 2, 1).unwrap()), vec![s("user2"), s("user3")]);
    assert_eq!(names(&store.zrange("scores", -2, -1, 1).unwrap()), vec![s("user5"), s("user4")]);
    assert_eq!(store.zrange("scores", 3, 1, 1), Some(vec![]));
    assert_eq!(store.zrange("missing", 0, -1, 1), None);
    assert_eq!(store.zrangebyscore("missing", &num(0.0), &num(1.0), 1), None);
}

#[test]
fn sorted_set_equal_scores_order_by_member() {
    let mut store = fresh();
    store.zadd(s("z"), num(1.0), s("pear"), 1);
    store.zadd(s("z"), num(1.0), s("apple"), 1);
    store.zadd(s("z"), num(0.5), s("zebra"), 1);
    store.zadd(s("z"), num(1.0), s("Banana"), 1);
    store.zadd(s("z"), num(1.0), s("app"), 1);
    assert_eq!(
        names(&store.zrange("z", 0, -1, 1).unwrap()),
        vec![s("zebra"), s("Banana"), s("app"), s("apple"), s("pear")]
    );
}

#[test]
fn sorted_set_negative_zero_stands_below_zero() {
    let mut store = fresh();
    store.zadd(s("z"), num(0.0), s("a"), 1);
    store.zadd(s("z"), num(-0.0), s("b"), 1);
    store.zadd(s("z"), num(-1.0), s("c"), 1);
    assert_eq!(names(&store.zrange("z", 0, -1, 1).unwrap()), vec![s("c"), s("b"), s("a")]);
    assert_eq!(
        names(&store.zrangebyscore("z", &num(0.0), &num(0.0), 1).unwrap()),
        vec![s("a")]
    );
}

#[test]
fn whole_ranges_of_a_sorted_set_agree() {
    let mut store = fresh();
    store.zadd(s("z"), num(3.0), s("c"), 1);
    store.zadd(s("z"), num(f64::INFINITY), s("top"), 1);
    store.zadd(s("z"), num(-2.0), s("a"), 1);
    store.zadd(s("z"), num(f64::NEG_INFINITY), s("bottom"), 1);
    store.zadd(s("z"), num(3.0), s("b"), 1);
    let by_position = store.zrange("z", 0, -1, 1).unwrap();
    let by_score = store
        .zrangebyscore("z", &num(f64::NEG_INFINITY), &num(f64::INFINITY), 1)
        .unwrap();
    assert_eq!(by_position, by_score);
    assert_eq!(names(&by_position), vec![s("bottom"), s("a"), s("b"), s("c"), s("top")]);
}

#[test]
fn zadd_of_existing_member_replaces_the_score() {
    let mut store = fresh();
    assert!(store.zadd(s("z"), num(1.0), s("m"), 1));
    assert!(store.zadd(s("z"), num(2.0), s("n"), 1));
    assert!(!store.zadd(s("z"), num(3.0), s("m"), 1));
    assert_eq!(
        store.zrange("z", 0, -1, 1),
        Some(vec![(s("n"), num(2.0)), (s("m"), num(3.0))])
    );
    assert!(store.zrem("z", "m", 1));
    assert!(!store.zrem("z", "m", 1));
    assert_eq!(store.zrange("z", 0, -1, 1), Some(vec![(s("n"), num(2.0))]));
    assert!(!store.zrem("missing", "m", 1));
}

#[test]
fn mset_and_mget() {
    let mut store = fresh();
    assert_eq!(store.mset(vec![(s("k1"), s("v1")), (s("k2"), s("v2"))], 1), 2);
    store.lpush(s("list"), s("x"), 1);
    assert_eq!(
        store.mget(&vec![s("k1"), s("k2"), s("kx"), s("list"), s("k1")], 1),
        vec![Some(s("v1")), Some(s("v2")), None, None, Some(s("v1"))]
    );
    assert_eq!(store.mget(&vec![], 1), vec![]);
}

#[test]
fn mset_later_pair_wins() {
    let mut store = fresh();
    assert_eq!(store.mset(vec![(s("k"), s("1")), (s("k"), s("2"))], 1), 2);
    assert_eq!(store.get_string("k", 1), Some(s("2")));
    assert_eq!(info_of(&mut store, 1), counters(1, 1, 0, 0, 0, 0));
}

#[test]
fn mset_of_nothing_changes_nothing() {
    let mut store = fresh();
    assert_eq!(store.mset(vec![], 1), 0);
    assert!(!store.save_due());
}

#[test]
fn del_counts_removed_keys() {
    let mut store = fresh();
    store.set_string(s("a"), s("1"), 1);
    store.lpush(s("b"), s("1"), 1);
    assert_eq!(store.del(&vec![s("a"), s("missing"), s("b"), s("a")], 1), 2);
    assert_eq!(store.get_string("a", 1), None);
    assert_eq!(store.lrange("b", 0, -1, 1), None);
    assert_eq!(store.del(&vec![s("a")], 1), 0);
    assert_eq!(store.del(&vec![], 1), 0);
    assert_eq!(info_of(&mut store, 1), counters(0, 0, 0, 0, 0, 0));
}

#[test]
fn reads_after_del_are_empty() {
    let mut store = fresh();
    store.set_string(s("s"), s("v"), 1);
    store.rpush(s("l"), s("v"), 1);
    store.sadd(s("m"), s("v"), 1);
    store.hset(s("h"), s("f"), s("v"), 1);
    store.zadd(s("z"), num(1.0), s("v"), 1);
    assert_eq!(store.del(&vec![s("s"), s("l"), s("m"), s("h"), s("z")], 2), 5);
    assert_eq!(store.get_string("s", 3), None);
    assert_eq!(store.lrange("l", 0, -1, 3), None);
    assert_eq!(store.smembers("m", 3), None);
    assert!(!store.sismember("m", "v", 3));
    assert_eq!(store.hget("h", "f", 3), None);
    assert_eq!(store.hgetall("h", 3), None);
    assert_eq!(store.zrange("z", 0, -1, 3), None);
    assert_eq!(store.mget(&vec![s("s")], 3), vec![None]);
}

#[test]
fn del_drops_the_expiry_second() {
    let mut store = fresh();
    store.set_string(s("k"), s("v"), 10);
    assert!(store.expire("k", 100, 10));
    assert_eq!(store.del(&vec![s("k")], 11), 1);
    assert_eq!(store.ttl("k", 11), None);
    store.set_string(s("k"), s("w"), 12);
    assert_eq!(store.ttl("k", 12), None);
    assert_eq!(store.get_string("k", 10_000), Some(s("w")));
}

#[test]
fn info_counts_by_variant() {
    let mut store = fresh();
    assert_eq!(info_of(&mut store, 1), counters(0, 0, 0, 0, 0, 0));
    store.set_string(s("s1"), s("v"), 1);
    store.set_string(s("s2"), s("v"), 1);
    store.lpush(s("l"), s("v"), 1);
    store.sadd(s("m1"), s("v"), 1);
    store.sadd(s("m2"), s("v"), 1);
    store.sadd(s("m3"), s("v"), 1);
    store.hset(s("h"), s("f"), s("v"), 1);
    store.zadd(s("z"), num(1.0), s("v"), 1);
    assert_eq!(info_of(&mut store, 1), counters(8, 2, 1, 3, 1, 1));
}

#[test]
fn info_counts_many_keys() {
    let mut store = fresh();
    for i in 0..123 {
        store.set_string(format!("key{}", i), s("v"), 1);
    }
    assert_eq!(info_of(&mut store, 1), counters(123, 123, 0, 0, 0, 0));
}

#[test]
fn expire_of_missing_key_is_false() {
    let mut store = fresh();
    assert!(!store.expire("missing", 10, 1));
    assert_eq!(store.ttl("missing", 1), None);
    assert_eq!(store.get_expiry("missing"), None);
}

#[test]
fn expire_stores_the_absolute_second() {
    let mut store = fresh();
    store.set_string(s("k"), s("v"), 1000);
    assert!(store.expire("k", 30, 1000));
    assert_eq!(store.get_expiry("k"), Some(1030));
    assert_eq!(store.ttl("k", 1000), Some(30));
    assert_eq!(store.ttl("k", 1029), Some(1));
    assert_eq!(store.ttl("k", 1030), Some(-1));
    assert_eq!(store.ttl("k", 5000), Some(-1));
    assert!(store.expire("k", 50, 1001));
    assert_eq!(store.get_expiry("k"), Some(1051));
}

#[test]
fn ttl_is_capped() {
    let mut store = fresh();
    store.set_string(s("k"), s("v"), 0);
    assert!(store.expire("k", u64::MAX, 0));
    assert_eq!(store.ttl("k", 0), Some(i64::MAX));
    assert_eq!(store.ttl("k", u64::MAX - 5), Some(5));
}

#[test]
fn key_is_observable_until_its_expiry_second() {
    let mut store = fresh();
    store.set_string(s("k"), s("v"), 100);
    store.expire("k", 10, 100);
    assert_eq!(store.get_string("k", 109), Some(s("v")));
    assert_eq!(store.get_string("k", 110), None);
    assert_eq!(store.get_expiry("k"), None);
    assert_eq!(store.ttl("k", 110), None);
    assert_eq!(store.get_string("k", 105), None);
}

#[test]
fn expire_with_zero_seconds_hides_the_key_at_once() {
    let mut store = fresh();
    store.set_string(s("k"), s("v"), 100);
    store.lpush(s("l"), s("v"), 100);
    assert!(store.expire("k", 0, 100));
    assert_eq!(store.get_string("k", 100), None);
    assert_eq!(info_of(&mut store, 100), counters(1, 0, 1, 0, 0, 0));
    assert!(store.expire("l", 0, 100));
    assert_eq!(info_of(&mut store, 100), counters(0, 0, 0, 0, 0, 0));
    assert_eq!(store.lrange("l", 0, -1, 100), None);
}

#[test]
fn expired_key_does_not_count_even_before_it_is_read() {
    let mut store = fresh();
    store.set_string(s("a"), s("v"), 1);
    store.set_string(s("b"), s("v"), 1);
    store.expire("a", 5, 1);
    assert_eq!(info_of(&mut store, 5), counters(2, 2, 0, 0, 0, 0));
    assert_eq!(info_of(&mut store, 6), counters(1, 1, 0, 0, 0, 0));
    assert_eq!(store.get_expiry("a"), None);
}

#[test]
fn writes_evict_an_expired_key_first() {
    let mut store = fresh();
    store.set_string(s("k"), s("v"), 1);
    store.expire("k", 5, 1);
    assert_eq!(store.lpush(s("k"), s("x"), 6), 1);
    assert_eq!(store.lrange("k", 0, -1, 6), Some(vec![s("x")]));
    assert_eq!(store.ttl("k", 6), None);
    assert_eq!(store.lrange("k", 0, -1, 1_000), Some(vec![s("x")]));
}

#[test]
fn set_keeps_an_expiry_second_that_has_not_come() {
    let mut store = fresh();
    store.set_string(s("k"), s("v"), 1);
    store.expire("k", 10, 1);
    store.set_string(s("k"), s("w"), 5);
    assert_eq!(store.ttl("k", 5), Some(6));
    assert_eq!(store.get_string("k", 10), Some(s("w")));
    assert_eq!(store.get_string("k", 11), None);
}

#[test]
fn del_does_not_count_an_expired_key() {
    let mut store = fresh();
    store.set_string(s("k"), s("v"), 1);
    store.expire("k", 1, 1);
    assert_eq!(store.del(&vec![s("k")], 2), 0);
    assert_eq!(store.get_string("k", 2), None);
    assert_eq!(store.get_expiry("k"), None);
}

#[test]
fn expire_of_expired_key_is_false() {
    let mut store = fresh();
    store.set_string(s("k"), s("v"), 1);
    store.expire("k", 1, 1);
    assert!(!store.expire("k", 100, 2));
    assert_eq!(store.get_string("k", 2), None);
}

#[test]
fn persist_clears_the_expiry_second() {
    let mut store = fresh();
    store.set_string(s("k"), s("v"), 1);
    assert!(!store.persist("k", 1));
    store.expire("k", 10, 1);
    assert!(store.persist("k", 2));
    assert!(!store.persist("k", 2));
    assert_eq!(store.ttl("k", 2), None);
    assert_eq!(store.get_string("k", 1_000), Some(s("v")));
    assert!(!store.persist("missing", 2));
}

#[test]
fn persist_of_expired_key_is_false() {
    let mut store = fresh();
    store.set_string(s("k"), s("v"), 1);
    store.expire("k", 1, 1);
    assert!(!store.persist("k", 2));
    assert_eq!(store.get_string("k", 2), None);
}

#[test]
fn sweep_removes_expired_keys_only() {
    let mut store = fresh();
    for i in 0..10u64 {
        store.set_string(format!("k{}", i), s("v"), 0);
        store.expire(&format!("k{}", i), i + 1, 0);
    }
    store.set_string(s("forever"), s("v"), 0);
    store.cleanup_expired(5);
    for i in 0..10u64 {
        let expected = if i + 1 <= 5 { None } else { Some(i + 1) };
        assert_eq!(store.get_expiry(&format!("k{}", i)), expected);
    }
    assert_eq!(info_of(&mut store, 5), counters(6, 6, 0, 0, 0, 0));
    store.cleanup_expired(100);
    assert_eq!(info_of(&mut store, 100), counters(1, 1, 0, 0, 0, 0));
    assert_eq!(store.get_string("forever", 100), Some(s("v")));
}

#[test]
fn sweep_without_expired_keys_is_not_a_change() {
    let mut store = fresh();
    store.set_string(s("k"), s("v"), 0);
    store.expire("k", 10, 0);
    store.record_save(1);
    store.cleanup_expired(5);
    assert!(!store.save_due());
    store.cleanup_expired(10);
    assert!(store.save_due());
}

#[test]
fn writes_mark_dirty_and_reads_do_not() {
    let mut store = fresh();
    assert!(!store.save_due());
    store.get_string("k", 1);
    store.lrange("k", 0, -1, 1);
    store.smembers("k", 1);
    store.mget(&vec![s("k")], 1);
    store.info(1);
    store.lpop("k", 1);
    store.srem("k", "m", 1);
    store.del(&vec![s("k")], 1);
    assert!(!store.save_due());
    store.set_string(s("k"), s("v"), 1);
    assert!(store.save_due());
    store.record_save(5);
    assert!(!store.save_due());
    assert_eq!(store.persistence().as_ref().unwrap().last_save(), 5);
    store.get_string("k", 6);
    assert!(!store.save_due());
    assert!(!store.sadd(s("k"), s("m"), 6));
    assert!(!store.save_due());
    store.del(&vec![s("k")], 6);
    assert!(store.save_due());
}

#[test]
fn each_kind_of_write_marks_dirty() {
    let mut store = fresh();
    store.lpush(s("l"), s("v"), 1);
    assert!(store.save_due());
    store.record_save(1);
    store.rpop("l", 1);
    assert!(store.save_due());
    store.record_save(1);
    store.sadd(s("m"), s("v"), 1);
    assert!(store.save_due());
    store.record_save(1);
    assert!(!store.sadd(s("m"), s("v"), 1));
    assert!(!store.save_due());
    store.zadd(s("z"), num(1.0), s("v"), 1);
    store.record_save(1);
    assert!(!store.zadd(s("z"), num(2.0), s("v"), 1));
    assert!(store.save_due());
    store.record_save(1);
    store.expire("z", 10, 1);
    assert!(store.save_due());
    store.record_save(1);
    store.persist("z", 1);
    assert!(store.save_due());
}

#[test]
fn lazy_eviction_marks_dirty() {
    let mut store = fresh();
    store.set_string(s("k"), s("v"), 1);
    store.expire("k", 1, 1);
    store.record_save(1);
    assert_eq!(store.get_string("k", 1), Some(s("v")));
    assert!(!store.save_due());
    assert_eq!(store.get_string("k", 2), None);
    assert!(store.save_due());
}

#[test]
fn without_persistence_nothing_is_ever_due() {
    let mut store = Storage::empty(None);
    store.set_string(s("k"), s("v"), 1);
    assert!(!store.save_due());
    store.record_save(1);
    assert!(store.persistence().is_none());
    assert_eq!(store.get_string("k", 1), Some(s("v")));
    assert!(store.expire("k", 1, 1));
    assert_eq!(store.get_string("k", 2), None);
}

#[test]
fn snapshot_lists_the_contents() {
    let mut store = fresh();
    store.set_string(s("k"), s("v"), 1);
    store.rpush(s("l"), s("a"), 1);
    store.rpush(s("l"), s("b"), 1);
    store.expire("l", 9, 1);
    let snapshot = store.snapshot();
    assert_eq!(
        snapshot,
        Snapshot {
            data: vec![
                (s("k"), RedoxValue::String(s("v"))),
                (s("l"), RedoxValue::List(vec![s("a"), s("b")])),
            ],
            expiry: vec![(s("l"), 10)],
        }
    );
}

#[test]
fn restored_snapshot_is_the_keyspace() {
    let mut store = fresh();
    store.set_string(s("s"), s("v"), 1);
    store.rpush(s("l"), s("a"), 1);
    store.rpush(s("l"), s("a"), 1);
    store.sadd(s("m"), s("x"), 1);
    store.sadd(s("m"), s("y"), 1);
    store.hset(s("h"), s("f"), s("1"), 1);
    store.hset(s("h"), s("g"), s("2"), 1);
    store.zadd(s("z"), num(2.0), s("b"), 1);
    store.zadd(s("z"), num(1.0), s("a"), 1);
    store.expire("s", 50, 1);
    store.expire("z", 60, 1);
    let snapshot = store.snapshot();
    let mut again = Storage::new(Some(Persistence::new(s("data.json"), 60)), &snapshot);
    assert_eq!(again.snapshot(), snapshot);
    assert!(!again.save_due());
    assert_eq!(again.get_string("s", 2), Some(s("v")));
    assert_eq!(again.lrange("l", 0, -1, 2), Some(vec![s("a"), s("a")]));
    assert_eq!(again.smembers("m", 2), Some(vec![s("x"), s("y")]));
    assert_eq!(again.hgetall("h", 2), Some(vec![(s("f"), s("1")), (s("g"), s("2"))]));
    assert_eq!(again.zrange("z", 0, -1, 2), Some(vec![(s("a"), num(1.0)), (s("b"), num(2.0))]));
    assert_eq!(again.ttl("s", 2), Some(49));
    assert_eq!(again.ttl("z", 2), Some(59));
    assert_eq!(again.get_string("s", 51), None);
}

#[test]
fn restore_enters_repeated_names_once() {
    let snapshot = Snapshot {
        data: vec![
            (s("k"), RedoxValue::String(s("first"))),
            (s("m"), RedoxValue::Members(vec![s("a"), s("b"), s("a"), s("c"), s("b")])),
            (
                s("h"),
                RedoxValue::Hash(vec![(s("f"), s("1")), (s("g"), s("2")), (s("f"), s("3"))]),
            ),
            (
                s("z"),
                RedoxValue::SortedSet(vec![(s("x"), num(1.0)), (s("y"), num(2.0)), (s("x"), num(3.0))]),
            ),
            (s("k"), RedoxValue::String(s("second"))),
        ],
        expiry: vec![(s("k"), 10), (s("gone"), 20), (s("k"), 30)],
    };
    let mut store = Storage::new(None, &snapshot);
    assert_eq!(
        store.snapshot(),
        Snapshot {
            data: vec![
                (s("k"), RedoxValue::String(s("second"))),
                (s("m"), RedoxValue::Members(vec![s("a"), s("b"), s("c")])),
                (s("h"), RedoxValue::Hash(vec![(s("f"), s("3")), (s("g"), s("2"))])),
                (s("z"), RedoxValue::SortedSet(vec![(s("x"), num(3.0)), (s("y"), num(2.0))])),
            ],
            expiry: vec![(s("k"), 30)],
        }
    );
    assert_eq!(info_of(&mut store, 0), counters(4, 1, 0, 1, 1, 1));
    assert_eq!(store.get_expiry("gone"), None);
}

#[test]
fn restore_of_nothing_is_empty() {
    let mut store = Storage::new(None, &Snapshot { data: vec![], expiry: vec![] });
    assert_eq!(info_of(&mut store, 0), counters(0, 0, 0, 0, 0, 0));
    assert_eq!(store.snapshot(), Snapshot { data: vec![], expiry: vec![] });
}

#[test]
fn replaying_a_command_stream_gives_the_same_counters() {
    let mut outcomes = Vec::new();
    for _ in 0..2 {
        let mut store = Storage::empty(None);
        store.set_string(s("a"), s("1"), 1);
        store.lpush(s("l"), s("x"), 2);
        store.sadd(s("m"), s("x"), 3);
        store.del(&vec![s("a")], 4);
        store.mset(vec![(s("b"), s("2")), (s("c"), s("3"))], 5);
        store.zadd(s("z"), num(1.5), s("x"), 6);
        outcomes.push(store.info(7));
    }
    assert_eq!(outcomes[0], outcomes[1]);
    assert_eq!(outcomes[0], counters(5, 2, 1, 1, 0, 1));
}

#[test]
fn open_installs_what_the_load_yielded() {
    let snapshot = Snapshot {
        data: vec![(s("k"), RedoxValue::String(s("v")))],
        expiry: vec![(s("k"), 77)],
    };
    let mut store = Storage::open(Some(Persistence::new(s("data.json"), 60)), &Ok(snapshot.clone()));
    assert_eq!(store.snapshot(), snapshot);
    assert!(!store.save_due());
    assert_eq!(store.get_string("k", 76), Some(s("v")));
    assert_eq!(store.get_string("k", 77), None);
}

#[test]
fn open_after_failed_load_is_empty() {
    let mut store = Storage::open(
        Some(Persistence::new(s("data.json"), 60)),
        &Err(LoadError::InvalidData),
    );
    assert_eq!(store.snapshot(), Snapshot { data: vec![], expiry: vec![] });
    assert_eq!(info_of(&mut store, 0), counters(0, 0, 0, 0, 0, 0));
    assert!(!store.save_due());
    assert_eq!(store.persistence().as_ref().unwrap().file_path(), "data.json");
}

#[test]
fn decoded_keys_hold_no_whitespace() {
    for line in ["set  a\tb  c", " get\u{c}k\r\n", "mget a b   c d"] {
        for token in redox::protocol::Protocol::tokenize(line) {
            assert!(!token.is_empty());
            assert!(!token.chars().any(|c| c.is_ascii_whitespace()));
        }
    }
}
