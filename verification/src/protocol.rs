//! The wire protocol's vocabulary: requests, replies, and their models.

use vstd::prelude::*;
use crate::score::Score;
use crate::text::views;
use crate::value::{pair_views, RedoxValue, ValueView};

verus! {

/// A request.
#[derive(Debug, Clone, PartialEq)]
pub enum Command {
    /// `AUTH password`
    Auth { password: String },
    /// `SET key value`
    SetString { key: String, value: String },
    /// `GET key`
    Get { key: String },
    /// `LPUSH key value`
    LPush { key: String, value: String },
    /// `RPUSH key value`
    RPush { key: String, value: String },
    /// `LPOP key`
    LPop { key: String },
    /// `RPOP key`
    RPop { key: String },
    /// `LRANGE key start stop`
    LRange { key: String, start: i64, stop: i64 },
    /// `SADD key member`
    SAdd { key: String, member: String },
    /// `SREM key member`
    SRem { key: String, member: String },
    /// `SMEMBERS key`
    SMembers { key: String },
    /// `SISMEMBER key member`
    SIsMember { key: String, member: String },
    /// `HSET key field value`
    HSet { key: String, field: String, value: String },
    /// `HGET key field`
    HGet { key: String, field: String },
    /// `HGETALL key`
    HGetAll { key: String },
    /// `HDEL key field`
    HDel { key: String, field: String },
    /// `ZADD key score member`
    ZAdd { key: String, score: Score, member: String },
    /// `ZREM key member`
    ZRem { key: String, member: String },
    /// `ZRANGE key start stop`
    ZRange { key: String, start: i64, stop: i64 },
    /// `ZRANGEBYSCORE key min max`
    ZRangeByScore { key: String, min: Score, max: Score },
    /// `MSET k1 v1 k2 v2 ...`
    MSet(Vec<(String, String)>),
    /// `MGET k1 k2 ...`
    MGet(Vec<String>),
    /// `INFO`
    Info,
    /// `DEL k1 k2 ...`
    Del(Vec<String>),
}

/// What a request holds, as sequences of characters.
pub enum CommandView {
    Auth { password: Seq<char> },
    SetString { key: Seq<char>, value: Seq<char> },
    Get { key: Seq<char> },
    LPush { key: Seq<char>, value: Seq<char> },
    RPush { key: Seq<char>, value: Seq<char> },
    LPop { key: Seq<char> },
    RPop { key: Seq<char> },
    LRange { key: Seq<char>, start: i64, stop: i64 },
    SAdd { key: Seq<char>, member: Seq<char> },
    SRem { key: Seq<char>, member: Seq<char> },
    SMembers { key: Seq<char> },
    SIsMember { key: Seq<char>, member: Seq<char> },
    HSet { key: Seq<char>, field: Seq<char>, value: Seq<char> },
    HGet { key: Seq<char>, field: Seq<char> },
    HGetAll { key: Seq<char> },
    HDel { key: Seq<char>, field: Seq<char> },
    ZAdd { key: Seq<char>, score: (u64, Seq<char>), member: Seq<char> },
    ZRem { key: Seq<char>, member: Seq<char> },
    ZRange { key: Seq<char>, start: i64, stop: i64 },
    ZRangeByScore { key: Seq<char>, min: (u64, Seq<char>), max: (u64, Seq<char>) },
    MSet(Seq<(Seq<char>, Seq<char>)>),
    MGet(Seq<Seq<char>>),
    Info,
    Del(Seq<Seq<char>>),
}

impl View for Command {
    type V = CommandView;

    open spec fn view(&self) -> CommandView {
        match self {
            Command::Auth { password } => CommandView::Auth { password: password@ },
            Command::SetString { key, value } => CommandView::SetString {
                key: key@,
                value: value@,
            },
            Command::Get { key } => CommandView::Get { key: key@ },
            Command::LPush { key, value } => CommandView::LPush { key: key@, value: value@ },
            Command::RPush { key, value } => CommandView::RPush { key: key@, value: value@ },
            Command::LPop { key } => CommandView::LPop { key: key@ },
            Command::RPop { key } => CommandView::RPop { key: key@ },
            Command::LRange { key, start, stop } => CommandView::LRange {
                key: key@,
                start: *start,
                stop: *stop,
            },
            Command::SAdd { key, member } => CommandView::SAdd { key: key@, member: member@ },
            Command::SRem { key, member } => CommandView::SRem { key: key@, member: member@ },
            Command::SMembers { key } => CommandView::SMembers { key: key@ },
            Command::SIsMember { key, member } => CommandView::SIsMember {
                key: key@,
                member: member@,
            },
            Command::HSet { key, field, value } => CommandView::HSet {
                key: key@,
                field: field@,
                value: value@,
            },
            Command::HGet { key, field } => CommandView::HGet { key: key@, field: field@ },
            Command::HGetAll { key } => CommandView::HGetAll { key: key@ },
            Command::HDel { key, field } => CommandView::HDel { key: key@, field: field@ },
            Command::ZAdd { key, score, member } => CommandView::ZAdd {
                key: key@,
                score: score@,
                member: member@,
            },
            Command::ZRem { key, member } => CommandView::ZRem { key: key@, member: member@ },
            Command::ZRange { key, start, stop } => CommandView::ZRange {
                key: key@,
                start: *start,
                stop: *stop,
            },
            Command::ZRangeByScore { key, min, max } => CommandView::ZRangeByScore {
                key: key@,
                min: min@,
                max: max@,
            },
            Command::MSet(pairs) => CommandView::MSet(pair_views(pairs@)),
            Command::MGet(keys) => CommandView::MGet(views(keys@)),
            Command::Info => CommandView::Info,
            Command::Del(keys) => CommandView::Del(views(keys@)),
        }
    }
}

/// A reply.
#[derive(Debug, Clone, PartialEq)]
pub enum Response {
    /// The request was carried out and has nothing to return.
    Okay,
    /// A value, or an excerpt of one.
    Value(RedoxValue),
    /// The request was refused, with the reason.
    Error(String),
    /// One entry per requested key; `None` for a key without a string.
    Array(Vec<Option<String>>),
    /// A count.
    Integer(usize),
    /// Named counters.
    Info(Vec<(String, String)>),
}

/// What a reply holds, as sequences of characters.
pub enum ResponseView {
    Okay,
    Value(ValueView),
    Error(Seq<char>),
    Array(Seq<Option<Seq<char>>>),
    Integer(usize),
    Info(Seq<(Seq<char>, Seq<char>)>),
}

/// The views of optional strings.
pub open spec fn option_views(v: Seq<Option<String>>) -> Seq<Option<Seq<char>>> {
    v.map_values(
        |o: Option<String>|
            match o {
                Some(s) => Some(s@),
                None => None,
            },
    )
}

impl View for Response {
    type V = ResponseView;

    open spec fn view(&self) -> ResponseView {
        match self {
            Response::Okay => ResponseView::Okay,
            Response::Value(value) => ResponseView::Value(value@),
            Response::Error(message) => ResponseView::Error(message@),
            Response::Array(items) => ResponseView::Array(option_views(items@)),
            Response::Integer(n) => ResponseView::Integer(*n),
            Response::Info(counters) => ResponseView::Info(pair_views(counters@)),
        }
    }
}

/// The codec: stateless functions from request lines to commands and from
/// replies to reply lines.
pub struct Protocol;

} // verus!
