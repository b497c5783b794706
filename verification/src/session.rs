//! Sessions: authentication in front of the keyspace, and the way
//! from a request line to a reply line.
//!
//! Accepting connections, reading lines and writing replies is the embedding
//! program's part; it hands each line to [`Server::handle_line`] together
//! with the session's state and the current second.

use vstd::prelude::*;
use vstd::string::*;
use crate::decode::decode_spec;
use crate::encode::response_line;
use crate::model::{ScoreView, StorageView, Text};
use crate::protocol::{
    option_views, Command, CommandView, Protocol, Response, ResponseView,
};
use crate::score::Score;
use crate::storage::{answers_view, text_view, Storage};
use crate::text::{tokens, views};
use crate::value::{pair_views, scored_views, RedoxValue, ValueView};

verus! {

/// The state of one connection.
#[derive(Debug, Clone, Copy, PartialEq, Eq)]
pub struct ConnectionState {
    /// Whether the connection may run commands.
    pub authenticated: bool,
}

/// The server: the keyspace that all connections share, and the password
/// that guards it, if one is configured.
pub struct Server {
    storage: Storage,
    password: Option<String>,
}

/// The model of a server.
pub struct ServerView {
    pub storage: StorageView,
    pub password: Option<Text>,
}

/// The reply to a string that may be missing: the string, or `NIL`.
pub open spec fn text_reply(found: Option<Text>) -> ResponseView {
    match found {
        Some(s) => ResponseView::Value(ValueView::String(s)),
        None => ResponseView::Value(ValueView::String("NIL"@)),
    }
}

/// The reply to a yes-or-no outcome: 1 or 0.
pub open spec fn flag_reply(flag: bool) -> ResponseView {
    ResponseView::Integer(if flag { 1usize } else { 0usize })
}

/// The keyspace after a command of an authenticated connection.
pub open spec fn effect(s: StorageView, command: CommandView, now: u64) -> StorageView {
    match command {
        CommandView::Auth { password } => s,
        CommandView::SetString { key, value } => s.set_string(key, value, now),
        CommandView::Get { key } => s.evict(key, now),
        CommandView::LPush { key, value } => s.lpush(key, value, now),
        CommandView::RPush { key, value } => s.rpush(key, value, now),
        CommandView::LPop { key } => s.lpop(key, now),
        CommandView::RPop { key } => s.rpop(key, now),
        CommandView::LRange { key, start, stop } => s.evict(key, now),
        CommandView::SAdd { key, member } => s.sadd(key, member, now),
        CommandView::SRem { key, member } => s.srem(key, member, now),
        CommandView::SMembers { key } => s.evict(key, now),
        CommandView::SIsMember { key, member } => s.evict(key, now),
        CommandView::HSet { key, field, value } => s.hset(key, field, value, now),
        CommandView::HGet { key, field } => s.evict(key, now),
        CommandView::HGetAll { key } => s.evict(key, now),
        CommandView::HDel { key, field } => s.hdel(key, field, now),
        CommandView::ZAdd { key, score, member } => s.zadd(key, score, member, now),
        CommandView::ZRem { key, member } => s.zrem(key, member, now),
        CommandView::ZRange { key, start, stop } => s.evict(key, now),
        CommandView::ZRangeByScore { key, min, max } => s.evict(key, now),
        CommandView::MSet(pairs) => s.mset(pairs, now),
        CommandView::MGet(keys) => s.evict_all(keys, now),
        CommandView::Info => s.sweep(now),
        CommandView::Del(keys) => s.del(keys, now),
    }
}

/// The reply to a command of an authenticated connection. A key that holds
/// nothing, or a value of another variant than the command's, is answered
/// with the empty reply: `NIL`, 0 or an empty line.
pub open spec fn answer(s: StorageView, command: CommandView, now: u64) -> ResponseView {
    match command {
        CommandView::Auth { password } => ResponseView::Okay,
        CommandView::SetString { key, value } => ResponseView::Okay,
        CommandView::Get { key } => text_reply(s.get_string(key, now)),
        CommandView::LPush { key, value } => ResponseView::Integer(s.push_len(key, now) as usize),
        CommandView::RPush { key, value } => ResponseView::Integer(s.push_len(key, now) as usize),
        CommandView::LPop { key } => text_reply(s.lpop_result(key, now)),
        CommandView::RPop { key } => text_reply(s.rpop_result(key, now)),
        CommandView::LRange { key, start, stop } => ResponseView::Value(
            ValueView::List(
                match s.lrange(key, start as int, stop as int, now) {
                    Some(items) => items,
                    None => Seq::empty(),
                },
            ),
        ),
        CommandView::SAdd { key, member } => flag_reply(s.sadd_adds(key, member, now)),
        CommandView::SRem { key, member } => flag_reply(s.sismember(key, member, now)),
        CommandView::SMembers { key } => ResponseView::Value(
            ValueView::Members(
                match s.members_at(key, now) {
                    Some(members) => members,
                    None => Seq::empty(),
                },
            ),
        ),
        CommandView::SIsMember { key, member } => flag_reply(s.sismember(key, member, now)),
        CommandView::HSet { key, field, value } => flag_reply(s.hset_creates(key, field, now)),
        CommandView::HGet { key, field } => text_reply(s.hget(key, field, now)),
        CommandView::HGetAll { key } => ResponseView::Value(
            ValueView::Hash(
                match s.fields_at(key, now) {
                    Some(fields) => fields,
                    None => Seq::empty(),
                },
            ),
        ),
        CommandView::HDel { key, field } => flag_reply(s.hdel_removes(key, field, now)),
        CommandView::ZAdd { key, score, member } => flag_reply(s.zadd_adds(key, member, now)),
        CommandView::ZRem { key, member } => flag_reply(s.zrem_removes(key, member, now)),
        CommandView::ZRange { key, start, stop } => ResponseView::Value(
            ValueView::SortedSet(
                match s.zrange(key, start as int, stop as int, now) {
                    Some(members) => members,
                    None => Seq::empty(),
                },
            ),
        ),
        CommandView::ZRangeByScore { key, min, max } => ResponseView::Value(
            ValueView::SortedSet(
                match s.zrangebyscore(key, min, max, now) {
                    Some(members) => members,
                    None => Seq::empty(),
                },
            ),
        ),
        CommandView::MSet(pairs) => ResponseView::Integer(pairs.len() as usize),
        CommandView::MGet(keys) => ResponseView::Array(s.mget(keys, now)),
        CommandView::Info => ResponseView::Info(s.sweep(now).census().pairs()),
        CommandView::Del(keys) => ResponseView::Integer(s.del_count(keys, now) as usize),
    }
}

impl ServerView {
    /// Whether `AUTH` with `input` is accepted.
    pub open spec fn accepts(self, input: Text) -> bool {
        self.password == Some(input)
    }

    /// Whether a connection is authenticated after `command`.
    pub open spec fn authenticated_after(self, authenticated: bool, command: CommandView) -> bool {
        match command {
            CommandView::Auth { password } => authenticated || self.accepts(password),
            _ => authenticated,
        }
    }

    /// The keyspace after `command` on a connection: unchanged by `AUTH`
    /// and by any command of a connection that is not authenticated.
    pub open spec fn storage_after(self, authenticated: bool, command: CommandView, now: u64)
        -> StorageView {
        if command is Auth || !authenticated {
            self.storage
        } else {
            effect(self.storage, command, now)
        }
    }

    /// The reply to `command` on a connection.
    pub open spec fn reply(self, authenticated: bool, command: CommandView, now: u64)
        -> ResponseView {
        match command {
            CommandView::Auth { password } => match self.password {
                None => ResponseView::Error("Authentication not required"@),
                Some(expected) => if expected == password {
                    ResponseView::Okay
                } else {
                    ResponseView::Error("Invalid password"@)
                },
            },
            _ => if !authenticated {
                ResponseView::Error("Authentication required"@)
            } else {
                answer(self.storage, command, now)
            },
        }
    }
}

impl View for Server {
    type V = ServerView;

    closed spec fn view(&self) -> ServerView {
        ServerView {
            storage: self.storage@,
            password: match self.password {
                Some(p) => Some(p@),
                None => None,
            },
        }
    }
}

/// The reply to a string that may be missing.
fn text_response(found: Option<String>) -> (r: Response)
    ensures
        r@ == text_reply(text_view(found)),
{
    match found {
        Some(s) => Response::Value(RedoxValue::String(s)),
        None => Response::Value(RedoxValue::String(String::from_str("NIL"))),
    }
}

/// The reply to a yes-or-no outcome.
fn flag_response(flag: bool) -> (r: Response)
    ensures
        r@ == flag_reply(flag),
{
    Response::Integer(if flag { 1 } else { 0 })
}

impl Server {
    /// The representation invariant: that of the keyspace.
    pub closed spec fn wf(&self) -> bool {
        self.storage.wf()
    }

    /// A server on `storage`, guarded by `password` if there is one.
    pub fn new(storage: Storage, password: Option<String>) -> (r: Server)
        requires
            storage.wf(),
        ensures
            r.wf(),
            r@.storage == storage@,
            r@.password == match password {
                Some(p) => Some(p@),
                None => None,
            },
    {
        Server { storage, password }
    }

    /// The state of a new connection: authenticated exactly if no password
    /// is configured.
    pub fn connect(&self) -> (r: ConnectionState)
        ensures
            r.authenticated == self@.password.is_none(),
    {
        ConnectionState { authenticated: self.password.is_none() }
    }

    /// The keyspace, for reading.
    pub fn storage(&self) -> (r: &Storage)
        requires
            self.wf(),
        ensures
            r.wf(),
            r@ == self@.storage,
    {
        &self.storage
    }

    /// Records a completed save at second `now`.
    pub fn record_save(&mut self, now: u64)
        requires
            old(self).wf(),
        ensures
            final(self).wf(),
            final(self)@.password == old(self)@.password,
            final(self)@.storage == old(self)@.storage.saved(now),
    {
        self.storage.record_save(now);
    }

    /// The periodic sweep: takes out every key whose expiry second has come.
    pub fn cleanup_expired(&mut self, now: u64)
        requires
            old(self).wf(),
        ensures
            final(self).wf(),
            final(self)@.password == old(self)@.password,
            final(self)@.storage == old(self)@.storage.sweep(now),
    {
        self.storage.cleanup_expired(now);
    }

    /// Runs a command of an authenticated connection.
    fn dispatch(&mut self, command: Command, now: u64) -> (r: Response)
        requires
            old(self).wf(),
            !(command is Auth),
        ensures
            final(self).wf(),
            final(self)@.password == old(self)@.password,
            final(self)@.storage == effect(old(self)@.storage, command@, now),
            r@ == answer(old(self)@.storage, command@, now),
    {
        match command {
            Command::Auth { password } => Response::Okay,
            Command::SetString { key, value } => {
                self.storage.set_string(key, value, now);
                Response::Okay
            },
            Command::Get { key } => text_response(self.storage.get_string(key.as_str(), now)),
            Command::LPush { key, value } => Response::Integer(
                self.storage.lpush(key, value, now),
            ),
            Command::RPush { key, value } => Response::Integer(
                self.storage.rpush(key, value, now),
            ),
            Command::LPop { key } => text_response(self.storage.lpop(key.as_str(), now)),
            Command::RPop { key } => text_response(self.storage.rpop(key.as_str(), now)),
            Command::LRange { key, start, stop } => {
                match self.storage.lrange(key.as_str(), start, stop, now) {
                    Some(items) => Response::Value(RedoxValue::List(items)),
                    None => {
                        let items: Vec<String> = Vec::new();
                        assert(views(items@) =~= Seq::<Text>::empty());
                        Response::Value(RedoxValue::List(items))
                    },
                }
            },
            Command::SAdd { key, member } => flag_response(self.storage.sadd(key, member, now)),
            Command::SRem { key, member } => flag_response(
                self.storage.srem(key.as_str(), member.as_str(), now),
            ),
            Command::SMembers { key } => {
                match self.storage.smembers(key.as_str(), now) {
                    Some(members) => Response::Value(RedoxValue::Members(members)),
                    None => {
                        let members: Vec<String> = Vec::new();
                        assert(views(members@) =~= Seq::<Text>::empty());
                        Response::Value(RedoxValue::Members(members))
                    },
                }
            },
            Command::SIsMember { key, member } => flag_response(
                self.storage.sismember(key.as_str(), member.as_str(), now),
            ),
            Command::HSet { key, field, value } => flag_response(
                self.storage.hset(key, field, value, now),
            ),
            Command::HGet { key, field } => text_response(
                self.storage.hget(key.as_str(), field.as_str(), now),
            ),
            Command::HGetAll { key } => {
                match self.storage.hgetall(key.as_str(), now) {
                    Some(fields) => Response::Value(RedoxValue::Hash(fields)),
                    None => {
                        let fields: Vec<(String, String)> = Vec::new();
                        assert(pair_views(fields@) =~= Seq::<(Text, Text)>::empty());
                        Response::Value(RedoxValue::Hash(fields))
                    },
                }
            },
            Command::HDel { key, field } => flag_response(
                self.storage.hdel(key.as_str(), field.as_str(), now),
            ),
            Command::ZAdd { key, score, member } => flag_response(
                self.storage.zadd(key, score, member, now),
            ),
            Command::ZRem { key, member } => flag_response(
                self.storage.zrem(key.as_str(), member.as_str(), now),
            ),
            Command::ZRange { key, start, stop } => {
                match self.storage.zrange(key.as_str(), start, stop, now) {
                    Some(members) => Response::Value(RedoxValue::SortedSet(members)),
                    None => {
                        let members: Vec<(String, Score)> = Vec::new();
                        assert(scored_views(members@) =~= Seq::<(Text, ScoreView)>::empty());
                        Response::Value(RedoxValue::SortedSet(members))
                    },
                }
            },
            Command::ZRangeByScore { key, min, max } => {
                match self.storage.zrangebyscore(key.as_str(), &min, &max, now) {
                    Some(members) => Response::Value(RedoxValue::SortedSet(members)),
                    None => {
                        let members: Vec<(String, Score)> = Vec::new();
                        assert(scored_views(members@) =~= Seq::<(Text, ScoreView)>::empty());
                        Response::Value(RedoxValue::SortedSet(members))
                    },
                }
            },
            Command::MSet(pairs) => Response::Integer(self.storage.mset(pairs, now)),
            Command::MGet(keys) => {
                let found = self.storage.mget(&keys, now);
                assert(option_views(found@) =~= answers_view(found@));
                Response::Array(found)
            },
            Command::Info => Response::Info(self.storage.info(now)),
            Command::Del(keys) => Response::Integer(self.storage.del(&keys, now)),
        }
    }

    /// Runs `command` on a connection at second `now`: `AUTH` is checked
    /// against the configured password, any other command is refused unless
    /// the connection is authenticated, and else carried out on the
    /// keyspace.
    pub fn execute(&mut self, state: &mut ConnectionState, command: Command, now: u64) -> (r:
        Response)
        requires
            old(self).wf(),
        ensures
            final(self).wf(),
            final(self)@.password == old(self)@.password,
            final(self)@.storage == old(self)@.storage_after(
                old(state).authenticated,
                command@,
                now,
            ),
            final(state).authenticated == old(self)@.authenticated_after(
                old(state).authenticated,
                command@,
            ),
            r@ == old(self)@.reply(old(state).authenticated, command@, now),
    {
        match command {
            Command::Auth { password } => match &self.password {
                None => Response::Error(String::from_str("Authentication not required")),
                Some(expected) => if *expected == password {
                    state.authenticated = true;
                    Response::Okay
                } else {
                    Response::Error(String::from_str("Invalid password"))
                },
            },
            other => if !state.authenticated {
                Response::Error(String::from_str("Authentication required"))
            } else {
                self.dispatch(other, now)
            },
        }
    }

    /// Handles one request line of a connection at second `now` and returns
    /// the reply line. A line that decodes to no command is answered with the
    /// reason and changes nothing; a command is run as [`Server::execute`]
    /// runs it. `scores[i]` is the score that the line's token `i` denotes,
    /// as for [`Protocol::decode_tokens`].
    pub fn handle_line(
        &mut self,
        state: &mut ConnectionState,
        line: &str,
        scores: &Vec<Option<Score>>,
        now: u64,
    ) -> (r: String)
        requires
            old(self).wf(),
        ensures
            final(self).wf(),
            final(self)@.password == old(self)@.password,
            match decode_spec(tokens(line@), scores@) {
                Err(message) => {
                    &&& r@ == response_line(ResponseView::Error(message))
                    &&& final(self)@.storage == old(self)@.storage
                    &&& final(state).authenticated == old(state).authenticated
                },
                Ok(command) => {
                    &&& r@ == response_line(
                        old(self)@.reply(old(state).authenticated, command, now),
                    )
                    &&& final(self)@.storage == old(self)@.storage_after(
                        old(state).authenticated,
                        command,
                        now,
                    )
                    &&& final(state).authenticated == old(self)@.authenticated_after(
                        old(state).authenticated,
                        command,
                    )
                },
            },
    {
        let response = match Protocol::decode_command(line, scores) {
            Err(message) => Response::Error(message),
            Ok(command) => self.execute(state, command, now),
        };
        Protocol::encode_response(&response)
    }
}

} // verus!
