//! Decoding a request line into a command.

use vstd::prelude::*;
use vstd::string::*;
use crate::number::{parse_i64, parse_i64_spec};
use crate::protocol::{Command, CommandView, Protocol};
use crate::score::Score;
use crate::text::{is_keyword, split_tokens, tokens, upper, views};
use crate::value::pair_views;

verus! {

/// Outcome of decoding, as sequences of characters.
pub type Decoded = Result<CommandView, Seq<char>>;

/// The score that the token at position `i` denotes, if it denotes one.
pub open spec fn score_at(scores: Seq<Option<Score>>, i: int) -> Option<(u64, Seq<char>)> {
    if 0 <= i < scores.len() {
        match scores[i] {
            Some(score) => Some(score@),
            None => None,
        }
    } else {
        None
    }
}

/// The consecutive pairs of an even number of arguments.
pub open spec fn pairs_of(args: Seq<Seq<char>>) -> Seq<(Seq<char>, Seq<char>)> {
    Seq::new((args.len() / 2) as nat, |i: int| (args[2 * i], args[2 * i + 1]))
}

/// Requests on strings and the session: `AUTH`, `SET`, `GET`.
pub open spec fn decode_plain(op: Seq<char>, parts: Seq<Seq<char>>) -> Option<Decoded> {
    if op == "AUTH"@ {
        Some(
            if parts.len() != 2 {
                Err("AUTH command requires password"@)
            } else {
                Ok(CommandView::Auth { password: parts[1] })
            },
        )
    } else if op == "SET"@ {
        Some(
            if parts.len() != 3 {
                Err("SET command requires KEY and VALUE"@)
            } else {
                Ok(CommandView::SetString { key: parts[1], value: parts[2] })
            },
        )
    } else if op == "GET"@ {
        Some(
            if parts.len() != 2 {
                Err("GET command requires KEY"@)
            } else {
                Ok(CommandView::Get { key: parts[1] })
            },
        )
    } else {
        None
    }
}

/// Requests on lists: `LPUSH`, `RPUSH`, `LPOP`, `RPOP`, `LRANGE`.
pub open spec fn decode_list(op: Seq<char>, parts: Seq<Seq<char>>) -> Option<Decoded> {
    if op == "LPUSH"@ {
        Some(
            if parts.len() != 3 {
                Err("LPUSH command requires KEY and VALUE"@)
            } else {
                Ok(CommandView::LPush { key: parts[1], value: parts[2] })
            },
        )
    } else if op == "RPUSH"@ {
        Some(
            if parts.len() != 3 {
                Err("RPUSH command requires KEY and VALUE"@)
            } else {
                Ok(CommandView::RPush { key: parts[1], value: parts[2] })
            },
        )
    } else if op == "LPOP"@ {
        Some(
            if parts.len() != 2 {
                Err("LPOP command requires KEY"@)
            } else {
                Ok(CommandView::LPop { key: parts[1] })
            },
        )
    } else if op == "RPOP"@ {
        Some(
            if parts.len() != 2 {
                Err("RPOP command requires KEY"@)
            } else {
                Ok(CommandView::RPop { key: parts[1] })
            },
        )
    } else if op == "LRANGE"@ {
        Some(
            if parts.len() != 4 {
                Err("LRANGE command requires KEY, START and STOP"@)
            } else {
                match parse_i64_spec(parts[2]) {
                    None => Err("Invalid START index"@),
                    Some(start) => match parse_i64_spec(parts[3]) {
                        None => Err("Invalid STOP index"@),
                        Some(stop) => Ok(CommandView::LRange { key: parts[1], start, stop }),
                    },
                }
            },
        )
    } else {
        None
    }
}

/// Requests on sets: `SADD`, `SREM`, `SMEMBERS`, `SISMEMBER`.
pub open spec fn decode_members(op: Seq<char>, parts: Seq<Seq<char>>) -> Option<Decoded> {
    if op == "SADD"@ {
        Some(
            if parts.len() != 3 {
                Err("SADD command requires KEY and MEMBER"@)
            } else {
                Ok(CommandView::SAdd { key: parts[1], member: parts[2] })
            },
        )
    } else if op == "SREM"@ {
        Some(
            if parts.len() != 3 {
                Err("SREM command requires KEY and MEMBER"@)
            } else {
                Ok(CommandView::SRem { key: parts[1], member: parts[2] })
            },
        )
    } else if op == "SMEMBERS"@ {
        Some(
            if parts.len() != 2 {
                Err("SMEMBERS command requires KEY"@)
            } else {
                Ok(CommandView::SMembers { key: parts[1] })
            },
        )
    } else if op == "SISMEMBER"@ {
        Some(
            if parts.len() != 3 {
                Err("SISMEMBER command requires KEY and MEMBER"@)
            } else {
                Ok(CommandView::SIsMember { key: parts[1], member: parts[2] })
            },
        )
    } else {
        None
    }
}

/// Requests on hashes: `HSET`, `HGET`, `HDEL`, `HGETALL`.
pub open spec fn decode_hash(op: Seq<char>, parts: Seq<Seq<char>>) -> Option<Decoded> {
    if op == "HSET"@ {
        Some(
            if parts.len() != 4 {
                Err("HSET command requires KEY, FIELD and VALUE"@)
            } else {
                Ok(CommandView::HSet { key: parts[1], field: parts[2], value: parts[3] })
            },
        )
    } else if op == "HGET"@ {
        Some(
            if parts.len() != 3 {
                Err("HGET command requires KEY and FIELD"@)
            } else {
                Ok(CommandView::HGet { key: parts[1], field: parts[2] })
            },
        )
    } else if op == "HDEL"@ {
        Some(
            if parts.len() != 3 {
                Err("HDEL command requires KEY and FIELD"@)
            } else {
                Ok(CommandView::HDel { key: parts[1], field: parts[2] })
            },
        )
    } else if op == "HGETALL"@ {
        Some(
            if parts.len() != 2 {
                Err("HGETALL command requires KEY"@)
            } else {
                Ok(CommandView::HGetAll { key: parts[1] })
            },
        )
    } else {
        None
    }
}

/// Requests on sorted sets: `ZADD`, `ZREM`, `ZRANGE`, `ZRANGEBYSCORE`.
pub open spec fn decode_sorted(
    op: Seq<char>,
    parts: Seq<Seq<char>>,
    scores: Seq<Option<Score>>,
) -> Option<Decoded> {
    if op == "ZADD"@ {
        Some(
            if parts.len() != 4 {
                Err("ZADD command requires KEY, SCORE and MEMBER"@)
            } else {
                match score_at(scores, 2) {
                    None => Err("Invalid SCORE"@),
                    Some(score) => Ok(
                        CommandView::ZAdd { key: parts[1], score, member: parts[3] },
                    ),
                }
            },
        )
    } else if op == "ZREM"@ {
        Some(
            if parts.len() != 3 {
                Err("ZREM command requires KEY and MEMBER"@)
            } else {
                Ok(CommandView::ZRem { key: parts[1], member: parts[2] })
            },
        )
    } else if op == "ZRANGE"@ {
        Some(
            if parts.len() != 4 {
                Err("ZRANGE command requires KEY, START and STOP"@)
            } else {
                match parse_i64_spec(parts[2]) {
                    None => Err("Invalid START index"@),
                    Some(start) => match parse_i64_spec(parts[3]) {
                        None => Err("Invalid STOP index"@),
                        Some(stop) => Ok(CommandView::ZRange { key: parts[1], start, stop }),
                    },
                }
            },
        )
    } else if op == "ZRANGEBYSCORE"@ {
        Some(
            if parts.len() != 4 {
                Err("ZRANGEBYSCORE command requires KEY, MIN and MAX"@)
            } else {
                match score_at(scores, 2) {
                    None => Err("Invalid MIN score"@),
                    Some(min) => match score_at(scores, 3) {
                        None => Err("Invalid MAX score"@),
                        Some(max) => Ok(CommandView::ZRangeByScore { key: parts[1], min, max }),
                    },
                }
            },
        )
    } else {
        None
    }
}

/// Requests on several keys and on the whole store: `MSET`, `MGET`, `DEL`,
/// `INFO`.
pub open spec fn decode_multi(op: Seq<char>, parts: Seq<Seq<char>>) -> Option<Decoded> {
    if op == "MSET"@ {
        Some(
            if parts.len() < 3 || parts.len() % 2 != 1 {
                Err("MSET requires key value pairs"@)
            } else {
                Ok(CommandView::MSet(pairs_of(parts.skip(1))))
            },
        )
    } else if op == "MGET"@ {
        Some(
            if parts.len() < 2 {
                Err("MGET requires at least one key"@)
            } else {
                Ok(CommandView::MGet(parts.skip(1)))
            },
        )
    } else if op == "DEL"@ {
        Some(
            if parts.len() < 2 {
                Err("DEL requires at least one key"@)
            } else {
                Ok(CommandView::Del(parts.skip(1)))
            },
        )
    } else if op == "INFO"@ {
        Some(
            if parts.len() != 1 {
                Err("INFO command takes no arguments"@)
            } else {
                Ok(CommandView::Info)
            },
        )
    } else {
        None
    }
}

/// The command that a tokenised request denotes, or the reason why it
/// denotes none. The first token, compared without regard to ASCII case,
/// names the operation; the rest are its arguments.
pub open spec fn decode_spec(parts: Seq<Seq<char>>, scores: Seq<Option<Score>>) -> Decoded {
    if parts.len() == 0 {
        Err("Empty command"@)
    } else {
        let op = upper(parts[0]);
        if let Some(r) = decode_plain(op, parts) {
            r
        } else if let Some(r) = decode_list(op, parts) {
            r
        } else if let Some(r) = decode_members(op, parts) {
            r
        } else if let Some(r) = decode_hash(op, parts) {
            r
        } else if let Some(r) = decode_sorted(op, parts, scores) {
            r
        } else if let Some(r) = decode_multi(op, parts) {
            r
        } else {
            Err("Unknown command"@)
        }
    }
}

/// The model of a decoding outcome.
pub open spec fn outcome_view(r: Result<Command, String>) -> Decoded {
    match r {
        Ok(command) => Ok(command@),
        Err(message) => Err(message@),
    }
}

/// The model of an optional decoding outcome.
pub open spec fn try_view(r: Option<Result<Command, String>>) -> Option<Decoded> {
    match r {
        Some(outcome) => Some(outcome_view(outcome)),
        None => None,
    }
}

/// A refusal with the given reason.
fn refuse(message: &str) -> (r: Result<Command, String>)
    ensures
        outcome_view(r) == Err::<CommandView, Seq<char>>(message@),
{
    Err(String::from_str(message))
}

/// A copy of the token at position `i`.
fn token(parts: &Vec<String>, i: usize) -> (r: String)
    requires
        i < parts.len(),
    ensures
        r@ == views(parts@)[i as int],
{
    parts[i].clone()
}

/// A copy of the score that the token at position `i` denotes.
fn score_token(scores: &Vec<Option<Score>>, i: usize) -> (r: Option<Score>)
    ensures
        match r {
            Some(score) => score_at(scores@, i as int) == Some(score@),
            None => score_at(scores@, i as int).is_none(),
        },
{
    if i < scores.len() {
        match &scores[i] {
            Some(score) => Some(score.clone()),
            None => None,
        }
    } else {
        None
    }
}

/// The arguments: every token but the first.
fn tail_tokens(parts: &Vec<String>) -> (r: Vec<String>)
    requires
        parts.len() >= 1,
    ensures
        views(r@) == views(parts@).skip(1),
{
    let mut out: Vec<String> = Vec::new();
    let mut i: usize = 1;
    while i < parts.len()
        invariant
            1 <= i <= parts.len(),
            out.len() == i - 1,
            forall|k: int| 0 <= k < out.len() ==> (#[trigger] out@[k])@ == parts@[k + 1]@,
        decreases parts.len() - i,
    {
        out.push(parts[i].clone());
        i += 1;
    }
    assert(views(out@) =~= views(parts@).skip(1));
    out
}

/// The arguments as consecutive pairs.
fn pair_tokens(parts: &Vec<String>) -> (r: Vec<(String, String)>)
    requires
        parts.len() >= 1,
        parts.len() % 2 == 1,
    ensures
        pair_views(r@) == pairs_of(views(parts@).skip(1)),
{
    let mut out: Vec<(String, String)> = Vec::new();
    let mut i: usize = 1;
    while i < parts.len()
        invariant
            1 <= i <= parts.len(),
            i % 2 == 1,
            parts.len() % 2 == 1,
            out.len() == (i - 1) / 2,
            forall|k: int|
                0 <= k < out.len() ==> (#[trigger] out@[k]).0@ == parts@[2 * k + 1]@ && out@[k].1@
                    == parts@[2 * k + 2]@,
        decreases parts.len() - i,
    {
        out.push((parts[i].clone(), parts[i + 1].clone()));
        i += 2;
    }
    assert(pair_views(out@) =~= pairs_of(views(parts@).skip(1)));
    out
}

/// A start and a stop index read from the third and fourth token.
fn index_pair(parts: &Vec<String>) -> (r: Result<(i64, i64), String>)
    requires
        parts.len() == 4,
    ensures
        match r {
            Ok((start, stop)) => parse_i64_spec(parts@[2]@) == Some(start) && parse_i64_spec(
                parts@[3]@,
            ) == Some(stop),
            Err(message) => if parse_i64_spec(parts@[2]@).is_none() {
                message@ == "Invalid START index"@
            } else {
                parse_i64_spec(parts@[3]@).is_none() && message@ == "Invalid STOP index"@
            },
        },
{
    match parse_i64(parts[2].as_str()) {
        None => Err(String::from_str("Invalid START index")),
        Some(start) => match parse_i64(parts[3].as_str()) {
            None => Err(String::from_str("Invalid STOP index")),
            Some(stop) => Ok((start, stop)),
        },
    }
}

/// Decodes `AUTH`, `SET` and `GET`.
fn plain(parts: &Vec<String>) -> (r: Option<Result<Command, String>>)
    requires
        parts.len() > 0,
    ensures
        try_view(r) == decode_plain(upper(parts@[0]@), views(parts@)),
{
    let op = parts[0].as_str();
    let n = parts.len();
    if is_keyword(op, "AUTH") {
        Some(
            if n != 2 {
                refuse("AUTH command requires password")
            } else {
                Ok(Command::Auth { password: token(parts, 1) })
            },
        )
    } else if is_keyword(op, "SET") {
        Some(
            if n != 3 {
                refuse("SET command requires KEY and VALUE")
            } else {
                Ok(Command::SetString { key: token(parts, 1), value: token(parts, 2) })
            },
        )
    } else if is_keyword(op, "GET") {
        Some(
            if n != 2 {
                refuse("GET command requires KEY")
            } else {
                Ok(Command::Get { key: token(parts, 1) })
            },
        )
    } else {
        None
    }
}

/// Decodes the requests on lists.
fn list(parts: &Vec<String>) -> (r: Option<Result<Command, String>>)
    requires
        parts.len() > 0,
    ensures
        try_view(r) == decode_list(upper(parts@[0]@), views(parts@)),
{
    let op = parts[0].as_str();
    let n = parts.len();
    if is_keyword(op, "LPUSH") {
        Some(
            if n != 3 {
                refuse("LPUSH command requires KEY and VALUE")
            } else {
                Ok(Command::LPush { key: token(parts, 1), value: token(parts, 2) })
            },
        )
    } else if is_keyword(op, "RPUSH") {
        Some(
            if n != 3 {
                refuse("RPUSH command requires KEY and VALUE")
            } else {
                Ok(Command::RPush { key: token(parts, 1), value: token(parts, 2) })
            },
        )
    } else if is_keyword(op, "LPOP") {
        Some(
            if n != 2 {
                refuse("LPOP command requires KEY")
            } else {
                Ok(Command::LPop { key: token(parts, 1) })
            },
        )
    } else if is_keyword(op, "RPOP") {
        Some(
            if n != 2 {
                refuse("RPOP command requires KEY")
            } else {
                Ok(Command::RPop { key: token(parts, 1) })
            },
        )
    } else if is_keyword(op, "LRANGE") {
        Some(
            if n != 4 {
                refuse("LRANGE command requires KEY, START and STOP")
            } else {
                match index_pair(parts) {
                    Err(message) => Err(message),
                    Ok((start, stop)) => Ok(
                        Command::LRange { key: token(parts, 1), start, stop },
                    ),
                }
            },
        )
    } else {
        None
    }
}

/// Decodes the requests on sets.
fn members(parts: &Vec<String>) -> (r: Option<Result<Command, String>>)
    requires
        parts.len() > 0,
    ensures
        try_view(r) == decode_members(upper(parts@[0]@), views(parts@)),
{
    let op = parts[0].as_str();
    let n = parts.len();
    if is_keyword(op, "SADD") {
        Some(
            if n != 3 {
                refuse("SADD command requires KEY and MEMBER")
            } else {
                Ok(Command::SAdd { key: token(parts, 1), member: token(parts, 2) })
            },
        )
    } else if is_keyword(op, "SREM") {
        Some(
            if n != 3 {
                refuse("SREM command requires KEY and MEMBER")
            } else {
                Ok(Command::SRem { key: token(parts, 1), member: token(parts, 2) })
            },
        )
    } else if is_keyword(op, "SMEMBERS") {
        Some(
            if n != 2 {
                refuse("SMEMBERS command requires KEY")
            } else {
                Ok(Command::SMembers { key: token(parts, 1) })
            },
        )
    } else if is_keyword(op, "SISMEMBER") {
        Some(
            if n != 3 {
                refuse("SISMEMBER command requires KEY and MEMBER")
            } else {
                Ok(Command::SIsMember { key: token(parts, 1), member: token(parts, 2) })
            },
        )
    } else {
        None
    }
}

/// Decodes the requests on hashes.
fn hash(parts: &Vec<String>) -> (r: Option<Result<Command, String>>)
    requires
        parts.len() > 0,
    ensures
        try_view(r) == decode_hash(upper(parts@[0]@), views(parts@)),
{
    let op = parts[0].as_str();
    let n = parts.len();
    if is_keyword(op, "HSET") {
        Some(
            if n != 4 {
                refuse("HSET command requires KEY, FIELD and VALUE")
            } else {
                Ok(
                    Command::HSet {
                        key: token(parts, 1),
                        field: token(parts, 2),
                        value: token(parts, 3),
                    },
                )
            },
        )
    } else if is_keyword(op, "HGET") {
        Some(
            if n != 3 {
                refuse("HGET command requires KEY and FIELD")
            } else {
                Ok(Command::HGet { key: token(parts, 1), field: token(parts, 2) })
            },
        )
    } else if is_keyword(op, "HDEL") {
        Some(
            if n != 3 {
                refuse("HDEL command requires KEY and FIELD")
            } else {
                Ok(Command::HDel { key: token(parts, 1), field: token(parts, 2) })
            },
        )
    } else if is_keyword(op, "HGETALL") {
        Some(
            if n != 2 {
                refuse("HGETALL command requires KEY")
            } else {
                Ok(Command::HGetAll { key: token(parts, 1) })
            },
        )
    } else {
        None
    }
}

/// Decodes the requests on sorted sets.
fn sorted(parts: &Vec<String>, scores: &Vec<Option<Score>>) -> (r: Option<
    Result<Command, String>,
>)
    requires
        parts.len() > 0,
    ensures
        try_view(r) == decode_sorted(upper(parts@[0]@), views(parts@), scores@),
{
    let op = parts[0].as_str();
    let n = parts.len();
    if is_keyword(op, "ZADD") {
        Some(
            if n != 4 {
                refuse("ZADD command requires KEY, SCORE and MEMBER")
            } else {
                match score_token(scores, 2) {
                    None => refuse("Invalid SCORE"),
                    Some(score) => Ok(
                        Command::ZAdd { key: token(parts, 1), score, member: token(parts, 3) },
                    ),
                }
            },
        )
    } else if is_keyword(op, "ZREM") {
        Some(
            if n != 3 {
                refuse("ZREM command requires KEY and MEMBER")
            } else {
                Ok(Command::ZRem { key: token(parts, 1), member: token(parts, 2) })
            },
        )
    } else if is_keyword(op, "ZRANGE") {
        Some(
            if n != 4 {
                refuse("ZRANGE command requires KEY, START and STOP")
            } else {
                match index_pair(parts) {
                    Err(message) => Err(message),
                    Ok((start, stop)) => Ok(
                        Command::ZRange { key: token(parts, 1), start, stop },
                    ),
                }
            },
        )
    } else if is_keyword(op, "ZRANGEBYSCORE") {
        Some(
            if n != 4 {
                refuse("ZRANGEBYSCORE command requires KEY, MIN and MAX")
            } else {
                match score_token(scores, 2) {
                    None => refuse("Invalid MIN score"),
                    Some(min) => match score_token(scores, 3) {
                        None => refuse("Invalid MAX score"),
                        Some(max) => Ok(
                            Command::ZRangeByScore { key: token(parts, 1), min, max },
                        ),
                    },
                }
            },
        )
    } else {
        None
    }
}

/// Decodes `MSET`, `MGET`, `DEL` and `INFO`.
fn multi(parts: &Vec<String>) -> (r: Option<Result<Command, String>>)
    requires
        parts.len() > 0,
    ensures
        try_view(r) == decode_multi(upper(parts@[0]@), views(parts@)),
{
    let op = parts[0].as_str();
    let n = parts.len();
    if is_keyword(op, "MSET") {
        Some(
            if n < 3 || n % 2 != 1 {
                refuse("MSET requires key value pairs")
            } else {
                Ok(Command::MSet(pair_tokens(parts)))
            },
        )
    } else if is_keyword(op, "MGET") {
        Some(
            if n < 2 {
                refuse("MGET requires at least one key")
            } else {
                Ok(Command::MGet(tail_tokens(parts)))
            },
        )
    } else if is_keyword(op, "DEL") {
        Some(
            if n < 2 {
                refuse("DEL requires at least one key")
            } else {
                Ok(Command::Del(tail_tokens(parts)))
            },
        )
    } else if is_keyword(op, "INFO") {
        Some(
            if n != 1 {
                refuse("INFO command takes no arguments")
            } else {
                Ok(Command::Info)
            },
        )
    } else {
        None
    }
}

impl Protocol {
    /// Splits a request line into its tokens: the runs of characters between
    /// ASCII whitespace.
    pub fn tokenize(input: &str) -> (r: Vec<String>)
        ensures
            views(r@) == tokens(input@),
    {
        split_tokens(input)
    }

    /// Decodes a tokenised request. `scores[i]` is the score that token `i`
    /// denotes, `None` if it denotes none; a token without an entry counts as
    /// denoting none.
    pub fn decode_tokens(parts: &Vec<String>, scores: &Vec<Option<Score>>) -> (r: Result<
        Command,
        String,
    >)
        ensures
            outcome_view(r) == decode_spec(views(parts@), scores@),
    {
        if parts.len() == 0 {
            return refuse("Empty command");
        }
        if let Some(r) = plain(parts) {
            r
        } else if let Some(r) = list(parts) {
            r
        } else if let Some(r) = members(parts) {
            r
        } else if let Some(r) = hash(parts) {
            r
        } else if let Some(r) = sorted(parts, scores) {
            r
        } else if let Some(r) = multi(parts) {
            r
        } else {
            refuse("Unknown command")
        }
    }

    /// Decodes a request line. `scores[i]` is the score that the line's token
    /// `i` denotes, as for [`Protocol::decode_tokens`].
    pub fn decode_command(input: &str, scores: &Vec<Option<Score>>) -> (r: Result<
        Command,
        String,
    >)
        ensures
            outcome_view(r) == decode_spec(tokens(input@), scores@),
    {
        let parts = split_tokens(input);
        Protocol::decode_tokens(&parts, scores)
    }
}

} // verus!
