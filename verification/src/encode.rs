//! Encoding replies and requests as lines.

use vstd::prelude::*;
use vstd::string::*;
use crate::model::{ScoreView, Text};
use crate::number::{decimal, format_i64, format_u64, signed_decimal};
use crate::order::{key_seq, sort_positions, sorted_order};
use crate::protocol::{
    option_views, Command, CommandView, Protocol, Response, ResponseView,
};
use crate::score::Score;
use crate::text::{chars_of, views};
use crate::value::{pair_views, scored_views, RedoxValue, ValueView};

verus! {

/// The items with `sep` between each two of them.
pub open spec fn join(items: Seq<Text>, sep: Text) -> Text
    decreases items.len(),
{
    if items.len() == 0 {
        Seq::empty()
    } else if items.len() == 1 {
        items[0]
    } else {
        join(items.drop_last(), sep) + sep + items.last()
    }
}

/// The tokens of field/value pairs: each field followed by its value.
pub open spec fn pair_tokens(pairs: Seq<(Text, Text)>) -> Seq<Text> {
    Seq::new(
        2 * pairs.len(),
        |i: int|
            if i % 2 == 0 {
                pairs[i / 2].0
            } else {
                pairs[i / 2].1
            },
    )
}

/// The tokens of scored members: each member followed by the text of its
/// score.
pub open spec fn scored_tokens(pairs: Seq<(Text, ScoreView)>) -> Seq<Text> {
    Seq::new(
        2 * pairs.len(),
        |i: int|
            if i % 2 == 0 {
                pairs[i / 2].0
            } else {
                pairs[i / 2].1.1
            },
    )
}

/// The tokens of optional strings: `NIL` for a missing one.
pub open spec fn answer_tokens(items: Seq<Option<Text>>) -> Seq<Text> {
    items.map_values(
        |o: Option<Text>|
            match o {
                Some(s) => s,
                None => "NIL"@,
            },
    )
}

/// The lines of named counters: each name, a colon and a space, the value.
pub open spec fn counter_lines(pairs: Seq<(Text, Text)>) -> Seq<Text> {
    pairs.map_values(|p: (Text, Text)| p.0 + ": "@ + p.1)
}

/// The lines by ascending text; equal lines keep their order.
pub open spec fn sorted_lines(lines: Seq<Text>) -> Seq<Text> {
    sorted_order(lines.map_values(|l: Text| (0int, l))).map_values(|i: int| lines[i])
}

/// The tokens of a value's reply.
pub open spec fn value_line(value: ValueView) -> Text {
    match value {
        ValueView::String(s) => if s.len() == 0 {
            "NIL"@
        } else {
            s
        },
        ValueView::List(items) => join(items, " "@),
        ValueView::Members(members) => join(members, " "@),
        ValueView::Hash(fields) => join(pair_tokens(fields), " "@),
        ValueView::SortedSet(members) => join(scored_tokens(members), " "@),
    }
}

/// The line that carries a reply, with the line feed that ends it.
pub open spec fn response_line(response: ResponseView) -> Text {
    match response {
        ResponseView::Okay => "OK"@ + "\n"@,
        ResponseView::Value(value) => value_line(value) + "\n"@,
        ResponseView::Error(message) => "ERR "@ + message + "\n"@,
        ResponseView::Array(items) => join(answer_tokens(items), " "@) + "\n"@,
        ResponseView::Integer(n) => decimal(n as nat) + "\n"@,
        ResponseView::Info(counters) => join(sorted_lines(counter_lines(counters)), "\n"@) + "\n"@,
    }
}

/// The tokens of a request: the operation's name, then its arguments.
pub open spec fn command_tokens(command: CommandView) -> Seq<Text> {
    match command {
        CommandView::Auth { password } => seq!["AUTH"@, password],
        CommandView::SetString { key, value } => seq!["SET"@, key, value],
        CommandView::Get { key } => seq!["GET"@, key],
        CommandView::LPush { key, value } => seq!["LPUSH"@, key, value],
        CommandView::RPush { key, value } => seq!["RPUSH"@, key, value],
        CommandView::LPop { key } => seq!["LPOP"@, key],
        CommandView::RPop { key } => seq!["RPOP"@, key],
        CommandView::LRange { key, start, stop } => seq![
            "LRANGE"@,
            key,
            signed_decimal(start as int),
            signed_decimal(stop as int),
        ],
        CommandView::SAdd { key, member } => seq!["SADD"@, key, member],
        CommandView::SRem { key, member } => seq!["SREM"@, key, member],
        CommandView::SMembers { key } => seq!["SMEMBERS"@, key],
        CommandView::SIsMember { key, member } => seq!["SISMEMBER"@, key, member],
        CommandView::HSet { key, field, value } => seq!["HSET"@, key, field, value],
        CommandView::HGet { key, field } => seq!["HGET"@, key, field],
        CommandView::HGetAll { key } => seq!["HGETALL"@, key],
        CommandView::HDel { key, field } => seq!["HDEL"@, key, field],
        CommandView::ZAdd { key, score, member } => seq!["ZADD"@, key, score.1, member],
        CommandView::ZRem { key, member } => seq!["ZREM"@, key, member],
        CommandView::ZRange { key, start, stop } => seq![
            "ZRANGE"@,
            key,
            signed_decimal(start as int),
            signed_decimal(stop as int),
        ],
        CommandView::ZRangeByScore { key, min, max } => seq!["ZRANGEBYSCORE"@, key, min.1, max.1],
        CommandView::MSet(pairs) => seq!["MSET"@] + pair_tokens(pairs),
        CommandView::MGet(keys) => seq!["MGET"@] + keys,
        CommandView::Info => seq!["INFO"@],
        CommandView::Del(keys) => seq!["DEL"@] + keys,
    }
}

/// The line that carries a request, with the line feed that ends it.
pub open spec fn command_line(command: CommandView) -> Text {
    join(command_tokens(command), " "@) + "\n"@
}

/// The items with `sep` between each two of them.
pub fn join_texts(items: &Vec<String>, sep: &str) -> (r: String)
    ensures
        r@ == join(views(items@), sep@),
{
    let ghost all = views(items@);
    let mut out = String::new();
    let mut i: usize = 0;
    assert(all.take(0) =~= Seq::<Text>::empty());
    while i < items.len()
        invariant
            i <= items.len(),
            all == views(items@),
            out@ == join(all.take(i as int), sep@),
        decreases items.len() - i,
    {
        proof {
            assert(all.take(i + 1).drop_last() =~= all.take(i as int));
            assert(all.take(i + 1).last() == items@[i as int]@);
        }
        if i > 0 {
            out.append(sep);
        }
        out.append(items[i].as_str());
        proof {
            if i == 0 {
                assert(out@ =~= items@[0]@);
                assert(all.take(1)[0] == items@[0]@);
            }
        }
        i += 1;
    }
    assert(all.take(items.len() as int) =~= all);
    out
}

/// `line` with a line feed behind it.
fn terminated(line: String) -> (r: String)
    ensures
        r@ == line@ + "\n"@,
{
    let mut out = line;
    out.append("\n");
    out
}

/// Each field followed by its value.
fn pair_token_list(pairs: &Vec<(String, String)>) -> (r: Vec<String>)
    ensures
        views(r@) == pair_tokens(pair_views(pairs@)),
{
    let ghost want = pair_tokens(pair_views(pairs@));
    let mut out: Vec<String> = Vec::new();
    let mut i: usize = 0;
    while i < pairs.len()
        invariant
            i <= pairs.len(),
            want == pair_tokens(pair_views(pairs@)),
            out.len() == 2 * i,
            forall|j: int| 0 <= j < out.len() ==> (#[trigger] out@[j])@ == want[j],
        decreases pairs.len() - i,
    {
        let ghost before = out@;
        out.push(pairs[i].0.clone());
        out.push(pairs[i].1.clone());
        proof {
            assert forall|j: int| 0 <= j < out.len() implies (#[trigger] out@[j])@ == want[j] by {
                if j < 2 * i {
                    assert(out@[j] == before[j]);
                }
            }
        }
        i += 1;
    }
    assert(views(out@) =~= want);
    out
}

/// Each member followed by the text of its score.
fn scored_token_list(pairs: &Vec<(String, Score)>) -> (r: Vec<String>)
    ensures
        views(r@) == scored_tokens(scored_views(pairs@)),
{
    let ghost want = scored_tokens(scored_views(pairs@));
    let mut out: Vec<String> = Vec::new();
    let mut i: usize = 0;
    while i < pairs.len()
        invariant
            i <= pairs.len(),
            want == scored_tokens(scored_views(pairs@)),
            out.len() == 2 * i,
            forall|j: int| 0 <= j < out.len() ==> (#[trigger] out@[j])@ == want[j],
        decreases pairs.len() - i,
    {
        let ghost before = out@;
        out.push(pairs[i].0.clone());
        out.push(pairs[i].1.text().clone());
        proof {
            assert forall|j: int| 0 <= j < out.len() implies (#[trigger] out@[j])@ == want[j] by {
                if j < 2 * i {
                    assert(out@[j] == before[j]);
                }
            }
        }
        i += 1;
    }
    assert(views(out@) =~= want);
    out
}

/// Each string, `NIL` for a missing one.
fn answer_token_list(items: &Vec<Option<String>>) -> (r: Vec<String>)
    ensures
        views(r@) == answer_tokens(option_views(items@)),
{
    let mut out: Vec<String> = Vec::new();
    let mut i: usize = 0;
    while i < items.len()
        invariant
            i <= items.len(),
            out.len() == i,
            forall|k: int|
                0 <= k < i ==> (#[trigger] out@[k])@ == answer_tokens(option_views(items@))[k],
        decreases items.len() - i,
    {
        let token = match &items[i] {
            Some(s) => s.clone(),
            None => String::from_str("NIL"),
        };
        out.push(token);
        i += 1;
    }
    assert(views(out@) =~= answer_tokens(option_views(items@)));
    out
}

/// The lines of the counters, by ascending text.
fn sorted_counter_lines(counters: &Vec<(String, String)>) -> (r: Vec<String>)
    ensures
        views(r@) == sorted_lines(counter_lines(pair_views(counters@))),
{
    let ghost want = counter_lines(pair_views(counters@));
    let mut lines: Vec<String> = Vec::new();
    let mut keys: Vec<(i64, Vec<char>)> = Vec::new();
    let mut i: usize = 0;
    while i < counters.len()
        invariant
            i <= counters.len(),
            want == counter_lines(pair_views(counters@)),
            lines.len() == i,
            keys.len() == i,
            forall|k: int| 0 <= k < i ==> (#[trigger] lines@[k])@ == want[k],
            forall|k: int| 0 <= k < i ==> (#[trigger] keys@[k]).0 == 0 && keys@[k].1@ == want[k],
        decreases counters.len() - i,
    {
        let mut line = counters[i].0.clone();
        line.append(": ");
        line.append(counters[i].1.as_str());
        keys.push((0, chars_of(line.as_str())));
        lines.push(line);
        i += 1;
    }
    let ghost ks = want.map_values(|l: Text| (0int, l));
    assert(key_seq(keys@) =~= ks);
    let order = sort_positions(&keys);
    let ghost ranks = sorted_order(ks);
    let mut out: Vec<String> = Vec::new();
    let mut k: usize = 0;
    while k < order.len()
        invariant
            k <= order.len(),
            order.len() == lines.len(),
            lines.len() == want.len(),
            ranks == order@.map_values(|i: usize| i as int),
            forall|j: int| 0 <= j < order.len() ==> #[trigger] order@[j] < lines.len(),
            forall|j: int| 0 <= j < lines.len() ==> (#[trigger] lines@[j])@ == want[j],
            out.len() == k,
            forall|j: int| 0 <= j < k ==> (#[trigger] out@[j])@ == want[ranks[j]],
        decreases order.len() - k,
    {
        let at = order[k];
        assert(ranks[k as int] == at as int);
        out.push(lines[at].clone());
        k += 1;
    }
    assert(views(out@) =~= sorted_lines(want));
    out
}

/// Appends copies of `items` to `out`.
fn append_copies(out: &mut Vec<String>, items: &Vec<String>)
    ensures
        views(final(out)@) == views(old(out)@) + views(items@),
{
    let mut i: usize = 0;
    assert(views(items@).take(0) =~= Seq::<Text>::empty());
    assert(views(out@) + Seq::<Text>::empty() =~= views(out@));
    while i < items.len()
        invariant
            i <= items.len(),
            views(out@) == views(old(out)@) + views(items@).take(i as int),
        decreases items.len() - i,
    {
        let ghost before = out@;
        out.push(items[i].clone());
        assert(views(out@) =~= views(before).push(items@[i as int]@));
        assert(views(items@).take(i + 1) =~= views(items@).take(i as int).push(items@[i as int]@));
        i += 1;
    }
    assert(views(items@).take(items.len() as int) =~= views(items@));
}

impl Protocol {
    /// Encodes a reply as one line, or, for named counters, as one line per
    /// counter; a line feed ends it.
    pub fn encode_response(resp: &Response) -> (r: String)
        ensures
            r@ == response_line(resp@),
    {
        match resp {
            Response::Okay => terminated(String::from_str("OK")),
            Response::Value(value) => {
                let line = match value {
                    RedoxValue::String(s) => if s.as_str().unicode_len() == 0 {
                        String::from_str("NIL")
                    } else {
                        s.clone()
                    },
                    RedoxValue::List(items) => join_texts(items, " "),
                    RedoxValue::Members(members) => join_texts(members, " "),
                    RedoxValue::Hash(fields) => join_texts(&pair_token_list(fields), " "),
                    RedoxValue::SortedSet(members) => join_texts(
                        &scored_token_list(members),
                        " ",
                    ),
                };
                terminated(line)
            },
            Response::Error(message) => {
                let mut line = String::from_str("ERR ");
                line.append(message.as_str());
                terminated(line)
            },
            Response::Array(items) => terminated(join_texts(&answer_token_list(items), " ")),
            Response::Integer(n) => terminated(format_u64(*n as u64)),
            Response::Info(counters) => terminated(
                join_texts(&sorted_counter_lines(counters), "\n"),
            ),
        }
    }

    /// Encodes a request as one line: the operation's name and its arguments
    /// with single spaces between them; a line feed ends it.
    pub fn encode_command(cmd: &Command) -> (r: String)
        ensures
            r@ == command_line(cmd@),
    {
        let mut parts: Vec<String> = Vec::new();
        match cmd {
            Command::Auth { password } => {
                parts.push(String::from_str("AUTH"));
                parts.push(password.clone());
            },
            Command::SetString { key, value } => {
                parts.push(String::from_str("SET"));
                parts.push(key.clone());
                parts.push(value.clone());
            },
            Command::Get { key } => {
                parts.push(String::from_str("GET"));
                parts.push(key.clone());
            },
            Command::LPush { key, value } => {
                parts.push(String::from_str("LPUSH"));
                parts.push(key.clone());
                parts.push(value.clone());
            },
            Command::RPush { key, value } => {
                parts.push(String::from_str("RPUSH"));
                parts.push(key.clone());
                parts.push(value.clone());
            },
            Command::LPop { key } => {
                parts.push(String::from_str("LPOP"));
                parts.push(key.clone());
            },
            Command::RPop { key } => {
                parts.push(String::from_str("RPOP"));
                parts.push(key.clone());
            },
            Command::LRange { key, start, stop } => {
                parts.push(String::from_str("LRANGE"));
                parts.push(key.clone());
                parts.push(format_i64(*start));
                parts.push(format_i64(*stop));
            },
            Command::SAdd { key, member } => {
                parts.push(String::from_str("SADD"));
                parts.push(key.clone());
                parts.push(member.clone());
            },
            Command::SRem { key, member } => {
                parts.push(String::from_str("SREM"));
                parts.push(key.clone());
                parts.push(member.clone());
            },
            Command::SMembers { key } => {
                parts.push(String::from_str("SMEMBERS"));
                parts.push(key.clone());
            },
            Command::SIsMember { key, member } => {
                parts.push(String::from_str("SISMEMBER"));
                parts.push(key.clone());
                parts.push(member.clone());
            },
            Command::HSet { key, field, value } => {
                parts.push(String::from_str("HSET"));
                parts.push(key.clone());
                parts.push(field.clone());
                parts.push(value.clone());
            },
            Command::HGet { key, field } => {
                parts.push(String::from_str("HGET"));
                parts.push(key.clone());
                parts.push(field.clone());
            },
            Command::HGetAll { key } => {
                parts.push(String::from_str("HGETALL"));
                parts.push(key.clone());
            },
            Command::HDel { key, field } => {
                parts.push(String::from_str("HDEL"));
                parts.push(key.clone());
                parts.push(field.clone());
            },
            Command::ZAdd { key, score, member } => {
                parts.push(String::from_str("ZADD"));
                parts.push(key.clone());
                parts.push(score.text().clone());
                parts.push(member.clone());
            },
            Command::ZRem { key, member } => {
                parts.push(String::from_str("ZREM"));
                parts.push(key.clone());
                parts.push(member.clone());
            },
            Command::ZRange { key, start, stop } => {
                parts.push(String::from_str("ZRANGE"));
                parts.push(key.clone());
                parts.push(format_i64(*start));
                parts.push(format_i64(*stop));
            },
            Command::ZRangeByScore { key, min, max } => {
                parts.push(String::from_str("ZRANGEBYSCORE"));
                parts.push(key.clone());
                parts.push(min.text().clone());
                parts.push(max.text().clone());
            },
            Command::MSet(pairs) => {
                parts.push(String::from_str("MSET"));
                let mut rest = pair_token_list(pairs);
                let ghost head = parts@;
                let ghost tail = rest@;
                parts.append(&mut rest);
                assert(views(parts@) =~= views(head) + views(tail));
            },
            Command::MGet(keys) => {
                parts.push(String::from_str("MGET"));
                append_copies(&mut parts, keys);
            },
            Command::Info => {
                parts.push(String::from_str("INFO"));
            },
            Command::Del(keys) => {
                parts.push(String::from_str("DEL"));
                append_copies(&mut parts, keys);
            },
        }
        assert(views(parts@) =~= command_tokens(cmd@));
        terminated(join_texts(&parts, " "))
    }
}

} // verus!
