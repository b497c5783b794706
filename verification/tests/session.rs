use redox::persistence::Persistence;
use redox::protocol::{Command, Protocol, Response};
use redox::score::Score;
use redox::session::{ConnectionState, Server};
use redox::storage::Storage;
use redox::value::RedoxValue;

fn line_scores(line: &str) -> Vec<Option<Score>> {
    Protocol::tokenize(line)
        .iter()
        .map(|t| t.parse::<f64>().ok().and_then(|f| Score::new(f.to_bits(), format!("{}", f))))
        .collect()
}

fn open_server() -> Server {
    Server::new(Storage::empty(None), None)
}

fn locked_server() -> Server {
    Server::new(Storage::empty(None), Some("mypassword".to_string()))
}

fn send(server: &mut Server, state: &mut ConnectionState, line: &str) -> String {
    server.handle_line(state, &format!("{}\n", line), &line_scores(line), 1_000)
}

fn send_at(server: &mut Server, state: &mut ConnectionState, line: &str, now: u64) -> String {
    server.handle_line(state, &format!("{}\n", line), &line_scores(line), now)
}

#[test]
fn connection_starts_authenticated_without_password() {
    assert!(open_server().connect().authenticated);
    assert!(!locked_server().connect().authenticated);
}

#[test]
fn scenario_auth_then_strings() {
    let mut server = locked_server();
    let mut state = server.connect();
    assert_eq!(send(&mut server, &mut state, "auth mypassword"), "OK\n");
    assert_eq!(send(&mut server, &mut state, "set testkey hello"), "OK\n");
    assert_eq!(send(&mut server, &mut state, "get testkey"), "hello\n");
    assert_eq!(send(&mut server, &mut state, "get missing"), "NIL\n");
}

#[test]
fn scenario_lists() {
    let mut server = open_server();
    let mut state = server.connect();
    assert_eq!(send(&mut server, &mut state, "lpush mylist world"), "1\n");
    assert_eq!(send(&mut server, &mut state, "lpush mylist hello"), "2\n");
    assert_eq!(send(&mut server, &mut state, "lrange mylist 0 -1"), "hello world\n");
    assert_eq!(send(&mut server, &mut state, "rpush mylist !"), "3\n");
    assert_eq!(send(&mut server, &mut state, "lpop mylist"), "hello\n");
    assert_eq!(send(&mut server, &mut state, "rpop mylist"), "!\n");
}

#[test]
fn scenario_sets() {
    let mut server = open_server();
    let mut state = server.connect();
    assert_eq!(send(&mut server, &mut state, "sadd myset member1"), "1\n");
    assert_eq!(send(&mut server, &mut state, "sadd myset member1"), "0\n");
    assert_eq!(send(&mut server, &mut state, "sismember myset member1"), "1\n");
    assert_eq!(send(&mut server, &mut state, "srem myset member1"), "1\n");
    assert_eq!(send(&mut server, &mut state, "sismember myset member1"), "0\n");
}

#[test]
fn scenario_hashes() {
    let mut server = open_server();
    let mut state = server.connect();
    assert_eq!(send(&mut server, &mut state, "hset user:1 name luna"), "1\n");
    assert_eq!(send(&mut server, &mut state, "hset user:1 age 21"), "1\n");
    assert_eq!(send(&mut server, &mut state, "hget user:1 name"), "luna\n");
    assert_eq!(send(&mut server, &mut state, "hdel user:1 age"), "1\n");
}

#[test]
fn scenario_sorted_sets() {
    let mut server = open_server();
    let mut state = server.connect();
    assert_eq!(send(&mut server, &mut state, "zadd scores 66 user1"), "1\n");
    assert_eq!(send(&mut server, &mut state, "zadd scores 77 user2"), "1\n");
    assert_eq!(send(&mut server, &mut state, "zadd scores 88 user3"), "1\n");
    assert_eq!(send(&mut server, &mut state, "zadd scores 100 user4"), "1\n");
    assert_eq!(send(&mut server, &mut state, "zadd scores 99 user5"), "1\n");
    assert_eq!(
        send(&mut server, &mut state, "zrange scores 0 -1"),
        "user1 66 user2 77 user3 88 user5 99 user4 100\n"
    );
    assert_eq!(
        send(&mut server, &mut state, "zrangebyscore scores 80 100"),
        "user3 88 user5 99 user4 100\n"
    );
    assert_eq!(
        send(&mut server, &mut state, "zrangebyscore scores -inf +inf"),
        "user1 66 user2 77 user3 88 user5 99 user4 100\n"
    );
}

#[test]
fn scenario_whole_run_ends_with_info() {
    let mut server = locked_server();
    let mut state = server.connect();
    let steps = [
        ("auth mypassword", "OK\n"),
        ("set testkey hello", "OK\n"),
        ("get testkey", "hello\n"),
        ("set counter 1", "OK\n"),
        ("get counter", "1\n"),
        ("lpush mylist world", "1\n"),
        ("lpush mylist hello", "2\n"),
        ("lrange mylist 0 -1", "hello world\n"),
        ("rpush mylist !", "3\n"),
        ("lpop mylist", "hello\n"),
        ("rpop mylist", "!\n"),
        ("sadd myset member1", "1\n"),
        ("sadd myset member2", "1\n"),
        ("sadd myset member1", "0\n"),
        ("smembers myset", "member1 member2\n"),
        ("sismember myset member1", "1\n"),
        ("srem myset member1", "1\n"),
        ("hset user:1 name luna", "1\n"),
        ("hset user:1 age 21", "1\n"),
        ("hget user:1 name", "luna\n"),
        ("hgetall user:1", "name luna age 21\n"),
        ("hdel user:1 age", "1\n"),
        ("zadd scores 66 user1", "1\n"),
        ("zadd scores 77 user2", "1\n"),
        ("zadd scores 88 user3", "1\n"),
        ("zadd scores 99 user5", "1\n"),
        ("zadd scores 100 user4", "1\n"),
        ("zrange scores 0 -1", "user1 66 user2 77 user3 88 user5 99 user4 100\n"),
        ("zrangebyscore scores 80 100", "user3 88 user5 99 user4 100\n"),
        ("mset k1 v1 k2 v2", "2\n"),
        ("mget k1 k2 kx", "v1 v2 NIL\n"),
        ("info", "hashes: 1\nkeys: 8\nlists: 1\nsets: 1\nstrings: 4\nzsets: 1\n"),
    ];
    for (request, reply) in steps {
        assert_eq!(send(&mut server, &mut state, request), reply, "request {:?}", request);
    }
}

#[test]
fn unauthenticated_commands_are_refused() {
    let mut server = locked_server();
    let mut state = server.connect();
    assert_eq!(send(&mut server, &mut state, "set k v"), "ERR Authentication required\n");
    assert_eq!(send(&mut server, &mut state, "get k"), "ERR Authentication required\n");
    assert_eq!(send(&mut server, &mut state, "info"), "ERR Authentication required\n");
    assert!(!state.authenticated);
    assert_eq!(send(&mut server, &mut state, "auth mypassword"), "OK\n");
    assert!(state.authenticated);
    assert_eq!(send(&mut server, &mut state, "get k"), "NIL\n");
    assert_eq!(
        send(&mut server, &mut state, "info"),
        "hashes: 0\nkeys: 0\nlists: 0\nsets: 0\nstrings: 0\nzsets: 0\n"
    );
}

#[test]
fn wrong_password_is_refused() {
    let mut server = locked_server();
    let mut state = server.connect();
    assert_eq!(send(&mut server, &mut state, "auth nope"), "ERR Invalid password\n");
    assert!(!state.authenticated);
    assert_eq!(send(&mut server, &mut state, "auth MYPASSWORD"), "ERR Invalid password\n");
    assert_eq!(send(&mut server, &mut state, "get k"), "ERR Authentication required\n");
    assert_eq!(send(&mut server, &mut state, "AUTH mypassword"), "OK\n");
    assert_eq!(send(&mut server, &mut state, "auth nope"), "ERR Invalid password\n");
    assert!(state.authenticated);
    assert_eq!(send(&mut server, &mut state, "get k"), "NIL\n");
}

#[test]
fn auth_without_configured_password_is_refused() {
    let mut server = open_server();
    let mut state = server.connect();
    assert_eq!(send(&mut server, &mut state, "auth anything"), "ERR Authentication not required\n");
    assert!(state.authenticated);
    assert_eq!(send(&mut server, &mut state, "set k v"), "OK\n");
}

#[test]
fn connections_share_the_keyspace_but_not_authentication() {
    let mut server = locked_server();
    let mut first = server.connect();
    let mut second = server.connect();
    assert_eq!(send(&mut server, &mut first, "auth mypassword"), "OK\n");
    assert_eq!(send(&mut server, &mut first, "set k v"), "OK\n");
    assert_eq!(send(&mut server, &mut second, "get k"), "ERR Authentication required\n");
    assert_eq!(send(&mut server, &mut second, "auth mypassword"), "OK\n");
    assert_eq!(send(&mut server, &mut second, "get k"), "v\n");
}

#[test]
fn protocol_errors_leave_the_session_usable() {
    let mut server = open_server();
    let mut state = server.connect();
    assert_eq!(send(&mut server, &mut state, ""), "ERR Empty command\n");
    assert_eq!(send(&mut server, &mut state, "bogus"), "ERR Unknown command\n");
    assert_eq!(send(&mut server, &mut state, "set k"), "ERR SET command requires KEY and VALUE\n");
    assert_eq!(send(&mut server, &mut state, "lrange k a b"), "ERR Invalid START index\n");
    assert_eq!(send(&mut server, &mut state, "zadd z x m"), "ERR Invalid SCORE\n");
    assert_eq!(send(&mut server, &mut state, "set k v"), "OK\n");
    assert_eq!(send(&mut server, &mut state, "get k"), "v\n");
}

#[test]
fn protocol_errors_come_before_authentication() {
    let mut server = locked_server();
    let mut state = server.connect();
    assert_eq!(send(&mut server, &mut state, "bogus"), "ERR Unknown command\n");
    assert_eq!(send(&mut server, &mut state, "get"), "ERR GET command requires KEY\n");
}

#[test]
fn empty_replies_for_missing_keys() {
    let mut server = open_server();
    let mut state = server.connect();
    assert_eq!(send(&mut server, &mut state, "get k"), "NIL\n");
    assert_eq!(send(&mut server, &mut state, "lpop k"), "NIL\n");
    assert_eq!(send(&mut server, &mut state, "rpop k"), "NIL\n");
    assert_eq!(send(&mut server, &mut state, "lrange k 0 -1"), "\n");
    assert_eq!(send(&mut server, &mut state, "smembers k"), "\n");
    assert_eq!(send(&mut server, &mut state, "sismember k m"), "0\n");
    assert_eq!(send(&mut server, &mut state, "srem k m"), "0\n");
    assert_eq!(send(&mut server, &mut state, "hget k f"), "NIL\n");
    assert_eq!(send(&mut server, &mut state, "hgetall k"), "\n");
    assert_eq!(send(&mut server, &mut state, "hdel k f"), "0\n");
    assert_eq!(send(&mut server, &mut state, "zrem k m"), "0\n");
    assert_eq!(send(&mut server, &mut state, "zrange k 0 -1"), "\n");
    assert_eq!(send(&mut server, &mut state, "zrangebyscore k 0 1"), "\n");
    assert_eq!(send(&mut server, &mut state, "mget k"), "NIL\n");
    assert_eq!(send(&mut server, &mut state, "del k"), "0\n");
}

#[test]
fn empty_replies_for_keys_of_another_variant() {
    let mut server = open_server();
    let mut state = server.connect();
    assert_eq!(send(&mut server, &mut state, "set k v"), "OK\n");
    assert_eq!(send(&mut server, &mut state, "lpush k x"), "0\n");
    assert_eq!(send(&mut server, &mut state, "rpush k x"), "0\n");
    assert_eq!(send(&mut server, &mut state, "lpop k"), "NIL\n");
    assert_eq!(send(&mut server, &mut state, "lrange k 0 -1"), "\n");
    assert_eq!(send(&mut server, &mut state, "sadd k m"), "0\n");
    assert_eq!(send(&mut server, &mut state, "smembers k"), "\n");
    assert_eq!(send(&mut server, &mut state, "hset k f v"), "0\n");
    assert_eq!(send(&mut server, &mut state, "hget k f"), "NIL\n");
    assert_eq!(send(&mut server, &mut state, "zadd k 1 m"), "0\n");
    assert_eq!(send(&mut server, &mut state, "zrange k 0 -1"), "\n");
    assert_eq!(send(&mut server, &mut state, "get k"), "v\n");
    assert_eq!(send(&mut server, &mut state, "lpush l x"), "1\n");
    assert_eq!(send(&mut server, &mut state, "get l"), "NIL\n");
    assert_eq!(send(&mut server, &mut state, "mget k l nothing"), "v NIL NIL\n");
}

#[test]
fn del_then_reads_are_empty() {
    let mut server = open_server();
    let mut state = server.connect();
    assert_eq!(send(&mut server, &mut state, "set a 1"), "OK\n");
    assert_eq!(send(&mut server, &mut state, "rpush b 1"), "1\n");
    assert_eq!(send(&mut server, &mut state, "del a b c"), "2\n");
    assert_eq!(send(&mut server, &mut state, "get a"), "NIL\n");
    assert_eq!(send(&mut server, &mut state, "lrange b 0 -1"), "\n");
    assert_eq!(
        send(&mut server, &mut state, "info"),
        "hashes: 0\nkeys: 0\nlists: 0\nsets: 0\nstrings: 0\nzsets: 0\n"
    );
}

#[test]
fn scores_are_replied_in_canonical_text() {
    let mut server = open_server();
    let mut state = server.connect();
    assert_eq!(send(&mut server, &mut state, "zadd z 1e2 a"), "1\n");
    assert_eq!(send(&mut server, &mut state, "zadd z 066.50 b"), "1\n");
    assert_eq!(send(&mut server, &mut state, "zadd z -0.1 c"), "1\n");
    assert_eq!(send(&mut server, &mut state, "zrange z 0 -1"), "c -0.1 b 66.5 a 100\n");
    assert_eq!(send(&mut server, &mut state, "zadd z 5 a"), "0\n");
    assert_eq!(send(&mut server, &mut state, "zrange z 0 0"), "c -0.1\n");
    assert_eq!(send(&mut server, &mut state, "zrange z -1 -1"), "b 66.5\n");
}

#[test]
fn carriage_return_before_line_feed_is_tolerated() {
    let mut server = open_server();
    let mut state = server.connect();
    assert_eq!(server.handle_line(&mut state, "set k v\r\n", &vec![], 1), "OK\n");
    assert_eq!(server.handle_line(&mut state, "get k\r\n", &vec![], 1), "v\n");
}

#[test]
fn execute_runs_a_decoded_command() {
    let mut server = open_server();
    let mut state = server.connect();
    let reply = server.execute(
        &mut state,
        Command::SetString { key: "k".to_string(), value: "v".to_string() },
        1,
    );
    assert_eq!(reply, Response::Okay);
    let reply = server.execute(&mut state, Command::Get { key: "k".to_string() }, 1);
    assert_eq!(reply, Response::Value(RedoxValue::String("v".to_string())));
    let reply = server.execute(&mut state, Command::Get { key: "x".to_string() }, 1);
    assert_eq!(reply, Response::Value(RedoxValue::String("NIL".to_string())));
    let reply = server.execute(&mut state, Command::Del(vec!["k".to_string()]), 1);
    assert_eq!(reply, Response::Integer(1));
    let reply = server.execute(&mut state, Command::MGet(vec!["k".to_string()]), 1);
    assert_eq!(reply, Response::Array(vec![None]));
}

#[test]
fn server_sweep_and_save_bookkeeping() {
    let storage = Storage::empty(Some(Persistence::new("data.json".to_string(), 60)));
    let mut server = Server::new(storage, None);
    let mut state = server.connect();
    assert!(!server.storage().save_due());
    assert_eq!(send_at(&mut server, &mut state, "set k v", 10), "OK\n");
    assert!(server.storage().save_due());
    let snapshot = server.storage().snapshot();
    assert_eq!(snapshot.data.len(), 1);
    server.record_save(11);
    assert!(!server.storage().save_due());
    assert_eq!(server.storage().persistence().as_ref().unwrap().last_save(), 11);
    server.cleanup_expired(12);
    assert!(!server.storage().save_due());
    assert_eq!(send_at(&mut server, &mut state, "get k", 13), "v\n");
}
