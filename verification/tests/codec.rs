use redox::protocol::{Command, Protocol, Response};
use redox::score::Score;
use redox::value::RedoxValue;

fn codec_score(value: f64) -> Score {
    Score::new(value.to_bits(), format!("{}", value)).unwrap()
}

fn codec_scores(line: &str) -> Vec<Option<Score>> {
    Protocol::tokenize(line)
        .iter()
        .map(|t| t.parse::<f64>().ok().and_then(|f| Score::new(f.to_bits(), format!("{}", f))))
        .collect()
}

fn decode(line: &str) -> Result<Command, String> {
    Protocol::decode_command(line, &codec_scores(line))
}

fn text(s: &str) -> String {
    s.to_string()
}

#[test]
fn tokenize_splits_on_whitespace_runs() {
    assert_eq!(Protocol::tokenize("  set \t key   value\r\n"), vec!["set", "key", "value"]);
    assert_eq!(Protocol::tokenize(""), Vec::<String>::new());
    assert_eq!(Protocol::tokenize(" \n"), Vec::<String>::new());
    assert_eq!(Protocol::tokenize("a\u{c}b"), vec!["a", "b"]);
}

#[test]
fn tokenize_keeps_other_unicode_space_inside_a_token() {
    assert_eq!(Protocol::tokenize("a\u{a0}b c"), vec!["a\u{a0}b", "c"]);
    assert_eq!(Protocol::tokenize("k\u{b}v"), vec!["k\u{b}v"]);
}

#[test]
fn decode_empty_line() {
    assert_eq!(decode(""), Err(text("Empty command")));
    assert_eq!(decode("   \r\n"), Err(text("Empty command")));
}

#[test]
fn decode_unknown_opcode() {
    assert_eq!(decode("frobnicate a b"), Err(text("Unknown command")));
    assert_eq!(decode("expire k 1"), Err(text("Unknown command")));
}

#[test]
fn decode_opcode_ignores_ascii_case() {
    assert_eq!(decode("GeT k"), Ok(Command::Get { key: text("k") }));
    assert_eq!(decode("info"), Ok(Command::Info));
    assert_eq!(decode("INFO"), Ok(Command::Info));
}

#[test]
fn decode_keeps_case_of_arguments() {
    assert_eq!(
        decode("set Key VaLuE"),
        Ok(Command::SetString { key: text("Key"), value: text("VaLuE") })
    );
}

#[test]
fn decode_auth() {
    assert_eq!(decode("auth mypassword"), Ok(Command::Auth { password: text("mypassword") }));
    assert_eq!(decode("auth"), Err(text("AUTH command requires password")));
    assert_eq!(decode("auth a b"), Err(text("AUTH command requires password")));
}

#[test]
fn decode_set_and_get() {
    assert_eq!(
        decode("set testkey hello\n"),
        Ok(Command::SetString { key: text("testkey"), value: text("hello") })
    );
    assert_eq!(decode("set k"), Err(text("SET command requires KEY and VALUE")));
    assert_eq!(decode("GET k"), Ok(Command::Get { key: text("k") }));
    assert_eq!(decode("get"), Err(text("GET command requires KEY")));
    assert_eq!(decode("get a b"), Err(text("GET command requires KEY")));
}

#[test]
fn decode_list_commands() {
    assert_eq!(decode("lpush l v"), Ok(Command::LPush { key: text("l"), value: text("v") }));
    assert_eq!(decode("rpush l v"), Ok(Command::RPush { key: text("l"), value: text("v") }));
    assert_eq!(decode("lpop l"), Ok(Command::LPop { key: text("l") }));
    assert_eq!(decode("rpop l"), Ok(Command::RPop { key: text("l") }));
    assert_eq!(decode("lpush l"), Err(text("LPUSH command requires KEY and VALUE")));
    assert_eq!(decode("rpush l"), Err(text("RPUSH command requires KEY and VALUE")));
    assert_eq!(decode("lpop"), Err(text("LPOP command requires KEY")));
    assert_eq!(decode("rpop l x"), Err(text("RPOP command requires KEY")));
}

#[test]
fn decode_lrange_reads_indices() {
    assert_eq!(
        decode("lrange mylist 0 -1"),
        Ok(Command::LRange { key: text("mylist"), start: 0, stop: -1 })
    );
    assert_eq!(
        decode("lrange l +5 -0"),
        Ok(Command::LRange { key: text("l"), start: 5, stop: 0 })
    );
    assert_eq!(
        decode("lrange l -9223372036854775808 9223372036854775807"),
        Ok(Command::LRange { key: text("l"), start: i64::MIN, stop: i64::MAX })
    );
    assert_eq!(
        decode("lrange l 007 0"),
        Ok(Command::LRange { key: text("l"), start: 7, stop: 0 })
    );
}

#[test]
fn decode_lrange_rejects_bad_indices() {
    assert_eq!(decode("lrange l x 1"), Err(text("Invalid START index")));
    assert_eq!(decode("lrange l 1 y"), Err(text("Invalid STOP index")));
    assert_eq!(decode("lrange l x y"), Err(text("Invalid START index")));
    assert_eq!(decode("lrange l 9223372036854775808 1"), Err(text("Invalid START index")));
    assert_eq!(decode("lrange l 1 -9223372036854775809"), Err(text("Invalid STOP index")));
    assert_eq!(decode("lrange l - 1"), Err(text("Invalid START index")));
    assert_eq!(decode("lrange l + 1"), Err(text("Invalid START index")));
    assert_eq!(decode("lrange l 1.0 1"), Err(text("Invalid START index")));
    assert_eq!(decode("lrange l 1 --1"), Err(text("Invalid STOP index")));
    assert_eq!(decode("lrange l 1"), Err(text("LRANGE command requires KEY, START and STOP")));
}

#[test]
fn decode_set_commands() {
    assert_eq!(decode("sadd s m"), Ok(Command::SAdd { key: text("s"), member: text("m") }));
    assert_eq!(decode("srem s m"), Ok(Command::SRem { key: text("s"), member: text("m") }));
    assert_eq!(decode("smembers s"), Ok(Command::SMembers { key: text("s") }));
    assert_eq!(
        decode("sismember s m"),
        Ok(Command::SIsMember { key: text("s"), member: text("m") })
    );
    assert_eq!(decode("sadd s"), Err(text("SADD command requires KEY and MEMBER")));
    assert_eq!(decode("srem s"), Err(text("SREM command requires KEY and MEMBER")));
    assert_eq!(decode("smembers"), Err(text("SMEMBERS command requires KEY")));
    assert_eq!(decode("sismember s"), Err(text("SISMEMBER command requires KEY and MEMBER")));
}

#[test]
fn decode_hash_commands() {
    assert_eq!(
        decode("hset user:1 name luna"),
        Ok(Command::HSet { key: text("user:1"), field: text("name"), value: text("luna") })
    );
    assert_eq!(decode("hget h f"), Ok(Command::HGet { key: text("h"), field: text("f") }));
    assert_eq!(decode("hdel h f"), Ok(Command::HDel { key: text("h"), field: text("f") }));
    assert_eq!(decode("hgetall h"), Ok(Command::HGetAll { key: text("h") }));
    assert_eq!(decode("hset h f"), Err(text("HSET command requires KEY, FIELD and VALUE")));
    assert_eq!(decode("hget h"), Err(text("HGET command requires KEY and FIELD")));
    assert_eq!(decode("hdel h"), Err(text("HDEL command requires KEY and FIELD")));
    assert_eq!(decode("hgetall"), Err(text("HGETALL command requires KEY")));
}

#[test]
fn decode_zadd_reads_score() {
    assert_eq!(
        decode("zadd scores 66 user1"),
        Ok(Command::ZAdd { key: text("scores"), score: codec_score(66.0), member: text("user1") })
    );
    assert_eq!(
        decode("zadd scores -1.5e3 user1"),
        Ok(Command::ZAdd {
            key: text("scores"),
            score: codec_score(-1500.0),
            member: text("user1")
        })
    );
    assert_eq!(decode("zadd scores abc user1"), Err(text("Invalid SCORE")));
    assert_eq!(decode("zadd scores NaN user1"), Err(text("Invalid SCORE")));
    assert_eq!(decode("zadd scores 1"), Err(text("ZADD command requires KEY, SCORE and MEMBER")));
}

#[test]
fn decode_score_without_entry_counts_as_unparsable() {
    let parts = Protocol::tokenize("zadd scores 66 user1");
    assert_eq!(Protocol::decode_tokens(&parts, &vec![]), Err(text("Invalid SCORE")));
    let short = vec![None, None, Some(codec_score(1.0))];
    assert_eq!(
        Protocol::decode_tokens(&Protocol::tokenize("zrangebyscore z 1 2"), &short),
        Err(text("Invalid MAX score"))
    );
}

#[test]
fn decode_sorted_set_commands() {
    assert_eq!(decode("zrem z m"), Ok(Command::ZRem { key: text("z"), member: text("m") }));
    assert_eq!(
        decode("zrange scores 0 -1"),
        Ok(Command::ZRange { key: text("scores"), start: 0, stop: -1 })
    );
    assert_eq!(
        decode("zrangebyscore scores 80 100"),
        Ok(Command::ZRangeByScore {
            key: text("scores"),
            min: codec_score(80.0),
            max: codec_score(100.0)
        })
    );
    assert_eq!(
        decode("zrangebyscore scores -inf +inf"),
        Ok(Command::ZRangeByScore {
            key: text("scores"),
            min: codec_score(f64::NEG_INFINITY),
            max: codec_score(f64::INFINITY)
        })
    );
    assert_eq!(decode("zrem z"), Err(text("ZREM command requires KEY and MEMBER")));
    assert_eq!(decode("zrange z 0"), Err(text("ZRANGE command requires KEY, START and STOP")));
    assert_eq!(decode("zrange z a 0"), Err(text("Invalid START index")));
    assert_eq!(decode("zrange z 0 b"), Err(text("Invalid STOP index")));
    assert_eq!(
        decode("zrangebyscore z 0"),
        Err(text("ZRANGEBYSCORE command requires KEY, MIN and MAX"))
    );
    assert_eq!(decode("zrangebyscore z x 1"), Err(text("Invalid MIN score")));
    assert_eq!(decode("zrangebyscore z 1 x"), Err(text("Invalid MAX score")));
    assert_eq!(decode("zrangebyscore z nan 1"), Err(text("Invalid MIN score")));
}

#[test]
fn decode_multi_key_commands() {
    assert_eq!(
        decode("mset k1 v1 k2 v2"),
        Ok(Command::MSet(vec![(text("k1"), text("v1")), (text("k2"), text("v2"))]))
    );
    assert_eq!(decode("mset k1"), Err(text("MSET requires key value pairs")));
    assert_eq!(decode("mset"), Err(text("MSET requires key value pairs")));
    assert_eq!(decode("mset k1 v1 k2"), Err(text("MSET requires key value pairs")));
    assert_eq!(
        decode("mget k1 k2 kx"),
        Ok(Command::MGet(vec![text("k1"), text("k2"), text("kx")]))
    );
    assert_eq!(decode("mget"), Err(text("MGET requires at least one key")));
    assert_eq!(decode("del a b"), Ok(Command::Del(vec![text("a"), text("b")])));
    assert_eq!(decode("del"), Err(text("DEL requires at least one key")));
    assert_eq!(decode("info now"), Err(text("INFO command takes no arguments")));
}

#[test]
fn encode_replies() {
    assert_eq!(Protocol::encode_response(&Response::Okay), "OK\n");
    assert_eq!(Protocol::encode_response(&Response::Error(text("x y"))), "ERR x y\n");
    assert_eq!(Protocol::encode_response(&Response::Integer(42)), "42\n");
    assert_eq!(Protocol::encode_response(&Response::Integer(0)), "0\n");
    assert_eq!(
        Protocol::encode_response(&Response::Integer(usize::MAX)),
        format!("{}\n", usize::MAX)
    );
}

#[test]
fn encode_string_reply_and_nil() {
    assert_eq!(
        Protocol::encode_response(&Response::Value(RedoxValue::String(text("hello")))),
        "hello\n"
    );
    assert_eq!(
        Protocol::encode_response(&Response::Value(RedoxValue::String(String::new()))),
        "NIL\n"
    );
}

#[test]
fn encode_list_and_set_replies() {
    assert_eq!(
        Protocol::encode_response(&Response::Value(RedoxValue::List(vec![
            text("hello"),
            text("world")
        ]))),
        "hello world\n"
    );
    assert_eq!(Protocol::encode_response(&Response::Value(RedoxValue::List(vec![]))), "\n");
    assert_eq!(
        Protocol::encode_response(&Response::Value(RedoxValue::List(vec![text("one")]))),
        "one\n"
    );
    assert_eq!(
        Protocol::encode_response(&Response::Value(RedoxValue::Members(vec![
            text("member1"),
            text("member2")
        ]))),
        "member1 member2\n"
    );
    assert_eq!(Protocol::encode_response(&Response::Value(RedoxValue::Members(vec![]))), "\n");
}

#[test]
fn encode_hash_and_sorted_set_replies() {
    assert_eq!(
        Protocol::encode_response(&Response::Value(RedoxValue::Hash(vec![
            (text("name"), text("luna")),
            (text("age"), text("21"))
        ]))),
        "name luna age 21\n"
    );
    assert_eq!(Protocol::encode_response(&Response::Value(RedoxValue::Hash(vec![]))), "\n");
    assert_eq!(
        Protocol::encode_response(&Response::Value(RedoxValue::SortedSet(vec![
            (text("user1"), codec_score(66.0)),
            (text("user2"), codec_score(77.5)),
            (text("user3"), codec_score(-0.25))
        ]))),
        "user1 66 user2 77.5 user3 -0.25\n"
    );
    assert_eq!(Protocol::encode_response(&Response::Value(RedoxValue::SortedSet(vec![]))), "\n");
}

#[test]
fn encode_array_reply_marks_missing_as_nil() {
    assert_eq!(
        Protocol::encode_response(&Response::Array(vec![Some(text("v1")), Some(text("v2")), None])),
        "v1 v2 NIL\n"
    );
    assert_eq!(Protocol::encode_response(&Response::Array(vec![])), "\n");
}

#[test]
fn encode_info_reply_sorts_lines() {
    let counters = vec![
        (text("zsets"), text("1")),
        (text("keys"), text("8")),
        (text("strings"), text("4")),
        (text("hashes"), text("1")),
        (text("sets"), text("1")),
        (text("lists"), text("1")),
    ];
    assert_eq!(
        Protocol::encode_response(&Response::Info(counters)),
        "hashes: 1\nkeys: 8\nlists: 1\nsets: 1\nstrings: 4\nzsets: 1\n"
    );
    assert_eq!(Protocol::encode_response(&Response::Info(vec![])), "\n");
}

#[test]
fn encode_info_reply_orders_by_character() {
    let counters = vec![
        (text("b"), text("1")),
        (text("ab"), text("2")),
        (text("a"), text("3")),
        (text("B"), text("4")),
    ];
    assert_eq!(
        Protocol::encode_response(&Response::Info(counters)),
        "B: 4\na: 3\nab: 2\nb: 1\n"
    );
}

#[test]
fn encode_commands() {
    assert_eq!(Protocol::encode_command(&Command::Auth { password: text("pw") }), "AUTH pw\n");
    assert_eq!(
        Protocol::encode_command(&Command::SetString { key: text("k"), value: text("v") }),
        "SET k v\n"
    );
    assert_eq!(
        Protocol::encode_command(&Command::LRange { key: text("l"), start: 0, stop: -1 }),
        "LRANGE l 0 -1\n"
    );
    assert_eq!(
        Protocol::encode_command(&Command::ZRange {
            key: text("z"),
            start: i64::MIN,
            stop: i64::MAX
        }),
        "ZRANGE z -9223372036854775808 9223372036854775807\n"
    );
    assert_eq!(
        Protocol::encode_command(&Command::ZAdd {
            key: text("z"),
            score: codec_score(66.0),
            member: text("m")
        }),
        "ZADD z 66 m\n"
    );
    assert_eq!(
        Protocol::encode_command(&Command::MSet(vec![
            (text("k1"), text("v1")),
            (text("k2"), text("v2"))
        ])),
        "MSET k1 v1 k2 v2\n"
    );
    assert_eq!(
        Protocol::encode_command(&Command::MGet(vec![text("a"), text("b")])),
        "MGET a b\n"
    );
    assert_eq!(Protocol::encode_command(&Command::Del(vec![text("a")])), "DEL a\n");
    assert_eq!(Protocol::encode_command(&Command::Info), "INFO\n");
}

#[test]
fn encoding_then_decoding_yields_the_command() {
    let commands = vec![
        Command::Auth { password: text("secret") },
        Command::SetString { key: text("k"), value: text("v") },
        Command::Get { key: text("k") },
        Command::LPush { key: text("l"), value: text("v") },
        Command::RPush { key: text("l"), value: text("v") },
        Command::LPop { key: text("l") },
        Command::RPop { key: text("l") },
        Command::LRange { key: text("l"), start: -3, stop: 7 },
        Command::SAdd { key: text("s"), member: text("m") },
        Command::SRem { key: text("s"), member: text("m") },
        Command::SMembers { key: text("s") },
        Command::SIsMember { key: text("s"), member: text("m") },
        Command::HSet { key: text("h"), field: text("f"), value: text("v") },
        Command::HGet { key: text("h"), field: text("f") },
        Command::HGetAll { key: text("h") },
        Command::HDel { key: text("h"), field: text("f") },
        Command::ZAdd { key: text("z"), score: codec_score(0.1), member: text("m") },
        Command::ZRem { key: text("z"), member: text("m") },
        Command::ZRange { key: text("z"), start: 0, stop: -1 },
        Command::ZRangeByScore {
            key: text("z"),
            min: codec_score(f64::NEG_INFINITY),
            max: codec_score(1e300),
        },
        Command::MSet(vec![(text("a"), text("1")), (text("b"), text("2"))]),
        Command::MGet(vec![text("a"), text("b")]),
        Command::Info,
        Command::Del(vec![text("a"), text("b")]),
    ];
    for command in commands {
        let line = Protocol::encode_command(&command);
        assert_eq!(decode(&line), Ok(command));
    }
}
