//! Encoding a request and decoding the line again yields the request.

use vstd::prelude::*;
use crate::decode::{
    decode_hash, decode_list, decode_members, decode_multi, decode_plain, decode_sorted,
    decode_spec, pairs_of, score_at,
};
use crate::encode::{command_line, command_tokens, join, pair_tokens};
use crate::model::Text;
use crate::number::{
    all_digits, decimal, digit_char, digit_value, digits_value, is_digit, parse_i64_spec,
    parse_int, signed_decimal,
};
use crate::protocol::CommandView;
use crate::score::Score;
use crate::text::{is_space, lemma_word_len_is, tokens, upper, upper_char, word_len};

verus! {

/// A word: one character or more, none of them whitespace.
pub open spec fn is_word(w: Text) -> bool {
    w.len() > 0 && forall|i: int| 0 <= i < w.len() ==> !is_space(#[trigger] w[i])
}

/// Every item is a word.
pub open spec fn all_words(ts: Seq<Text>) -> bool {
    forall|i: int| 0 <= i < ts.len() ==> is_word(#[trigger] ts[i])
}

/// The first word of a text ends before its first whitespace, and holds
/// none.
pub proof fn lemma_word_len_bounds(s: Text)
    ensures
        word_len(s) <= s.len(),
        s.len() > 0 && !is_space(s[0]) ==> word_len(s) > 0,
        forall|k: int| 0 <= k < word_len(s) ==> !is_space(#[trigger] s[k]),
    decreases s.len(),
{
    if s.len() == 0 || is_space(s[0]) {
    } else {
        let rest = s.drop_first();
        lemma_word_len_bounds(rest);
        assert forall|k: int| 0 <= k < word_len(s) implies !is_space(#[trigger] s[k]) by {
            if k > 0 {
                assert(s[k] == rest[k - 1]);
            }
        }
    }
}

/// The tokens of a line are words: none is empty, and none holds
/// whitespace.
pub proof fn law_tokens_are_words(s: Text)
    ensures
        all_words(tokens(s)),
    decreases s.len(),
{
    if s.len() == 0 {
    } else if is_space(s[0]) {
        law_tokens_are_words(s.drop_first());
    } else {
        let n = word_len(s);
        lemma_word_len_bounds(s);
        let first = s.take(n as int);
        let rest = tokens(s.skip(n as int));
        law_tokens_are_words(s.skip(n as int));
        assert(is_word(first)) by {
            assert forall|i: int| 0 <= i < first.len() implies !is_space(#[trigger] first[i]) by {
                assert(first[i] == s[i]);
            }
        }
        assert forall|i: int| 0 <= i < tokens(s).len() implies is_word(#[trigger] tokens(s)[i]) by {
            if i > 0 {
                assert(tokens(s)[i] == rest[i - 1]);
            }
        }
    }
}

/// A word with whitespace behind it is the first token of a line.
pub proof fn lemma_first_word(w: Text, c: char, rest: Text)
    requires
        is_word(w),
        is_space(c),
    ensures
        tokens(w + seq![c] + rest) == seq![w] + tokens(rest),
{
    let s = w + seq![c] + rest;
    let n = w.len();
    assert forall|k: int| 0 <= k < n implies !is_space(#[trigger] s[k]) by {
        assert(s[k] == w[k]);
    }
    assert(s[n as int] == c);
    lemma_word_len_is(s, n);
    assert(s.take(n as int) =~= w);
    let tail = s.skip(n as int);
    assert(tail =~= seq![c] + rest);
    assert(tail[0] == c);
    assert(tail.drop_first() =~= rest);
    assert(s[0] == w[0]);
    assert(tokens(tail) == tokens(rest));
    assert(tokens(s) == seq![s.take(n as int)] + tokens(s.skip(n as int)));
}

/// The first item of a joined sequence can be split off.
pub proof fn lemma_join_unfold(ts: Seq<Text>, sep: Text)
    requires
        ts.len() >= 2,
    ensures
        join(ts, sep) == ts[0] + sep + join(ts.drop_first(), sep),
    decreases ts.len(),
{
    let rest = ts.drop_first();
    if ts.len() == 2 {
        assert(ts.drop_last() =~= seq![ts[0]]);
        assert(rest =~= seq![ts[1]]);
        assert(join(ts.drop_last(), sep) == ts[0]);
        assert(join(rest, sep) == ts[1]);
    } else {
        let front = ts.drop_last();
        lemma_join_unfold(front, sep);
        assert(front.drop_first() =~= rest.drop_last());
        assert(front[0] == ts[0]);
        assert(rest.last() == ts.last());
        assert(join(ts, sep) =~= ts[0] + sep + join(rest, sep));
    }
}

/// Words joined by single spaces, with a line feed behind them, are the
/// tokens of the line.
pub proof fn lemma_tokens_of_line(ts: Seq<Text>)
    requires
        all_words(ts),
    ensures
        tokens(join(ts, " "@) + "\n"@) == ts,
    decreases ts.len(),
{
    reveal_strlit(" ");
    reveal_strlit("\n");
    let space = " "@;
    let feed = "\n"@;
    assert(space =~= seq![' ']);
    assert(feed =~= seq!['\n']);
    let none = Seq::<char>::empty();
    assert(tokens(none) =~= Seq::<Text>::empty());
    if ts.len() == 0 {
        assert(join(ts, space) + feed =~= feed);
        assert(feed.drop_first() =~= none);
        assert(tokens(feed) == tokens(none));
        assert(ts =~= Seq::<Text>::empty());
    } else if ts.len() == 1 {
        assert(is_word(ts[0]));
        lemma_first_word(ts[0], '\n', none);
        assert(join(ts, space) + feed =~= ts[0] + seq!['\n'] + none);
        assert(seq![ts[0]] + Seq::<Text>::empty() =~= ts);
    } else {
        let rest = ts.drop_first();
        assert(is_word(ts[0]));
        assert forall|i: int| 0 <= i < rest.len() implies is_word(#[trigger] rest[i]) by {
            assert(rest[i] == ts[i + 1]);
        }
        lemma_tokens_of_line(rest);
        lemma_join_unfold(ts, space);
        let tail = join(rest, space) + feed;
        lemma_first_word(ts[0], ' ', tail);
        assert(join(ts, space) + feed =~= ts[0] + seq![' '] + tail);
        assert(seq![ts[0]] + rest =~= ts);
    }
}

/// The decimal text of a number is a run of digits with the number as its
/// value.
pub proof fn lemma_decimal_digits(n: nat)
    ensures
        decimal(n).len() >= 1,
        all_digits(decimal(n)),
        digits_value(decimal(n)) == n,
    decreases n,
{
    let d = decimal(n);
    if n < 10 {
        assert(d =~= seq![digit_char(n as int)]);
        assert(d.drop_last() =~= Seq::<char>::empty());
        assert(digits_value(d.drop_last()) == 0);
        assert(is_digit(d[0]));
        assert(digit_value(d.last()) == n);
    } else {
        let front = decimal(n / 10);
        lemma_decimal_digits(n / 10);
        let last = digit_char((n % 10) as int);
        assert(d =~= front.push(last));
        assert(d.drop_last() =~= front);
        assert(d.last() == last);
        assert(is_digit(last));
        assert(digit_value(last) == n % 10);
        assert forall|i: int| 0 <= i < d.len() implies is_digit(#[trigger] d[i]) by {
            if i < front.len() {
                assert(d[i] == front[i]);
            }
        }
    }
}

/// A run of digits is a word.
pub proof fn lemma_digits_are_word(s: Text)
    requires
        s.len() >= 1,
        all_digits(s),
    ensures
        is_word(s),
{
    assert forall|i: int| 0 <= i < s.len() implies !is_space(#[trigger] s[i]) by {
        assert(is_digit(s[i]));
    }
}

/// The decimal text of a 64-bit integer is a word that reads as the integer.
pub proof fn lemma_read_signed_decimal(v: i64)
    ensures
        is_word(signed_decimal(v as int)),
        parse_i64_spec(signed_decimal(v as int)) == Some(v),
{
    let s = signed_decimal(v as int);
    if v < 0 {
        let body = decimal((-v) as nat);
        lemma_decimal_digits((-v) as nat);
        lemma_digits_are_word(body);
        assert(s =~= seq!['-'] + body);
        assert(s[0] == '-');
        assert(s.drop_first() =~= body);
        assert forall|i: int| 0 <= i < s.len() implies !is_space(#[trigger] s[i]) by {
            if i > 0 {
                assert(s[i] == body[i - 1]);
            }
        }
        assert(parse_int(s) == Some(v as int));
    } else {
        lemma_decimal_digits(v as nat);
        lemma_digits_are_word(s);
        assert(is_digit(s[0]));
        assert(parse_int(s) == Some(v as int));
    }
}

/// A name of an operation: one character or more, all of them ASCII capital
/// letters.
pub open spec fn is_name(name: Text) -> bool {
    name.len() > 0 && forall|i: int| 0 <= i < name.len() ==> 'A' <= #[trigger] name[i] <= 'Z'
}

/// A name is a word, and is its own upper-case form.
pub proof fn lemma_name(name: Text)
    requires
        is_name(name),
    ensures
        is_word(name),
        upper(name) == name,
{
    assert forall|i: int| 0 <= i < name.len() implies !is_space(#[trigger] name[i]) by {
        assert('A' <= name[i] <= 'Z');
    }
    assert forall|i: int| 0 <= i < name.len() implies upper(name)[i] == name[i] by {
        assert('A' <= name[i] <= 'Z');
        assert(upper_char(name[i]) == name[i]);
    }
    assert(upper(name) =~= name);
}

/// The place of an operation's name among the names; the number of names
/// for a text that is none of them.
pub open spec fn number_of(name: Text) -> int {
    if name == "AUTH"@ {
        0
    } else if name == "SET"@ {
        1
    } else if name == "GET"@ {
        2
    } else if name == "LPUSH"@ {
        3
    } else if name == "RPUSH"@ {
        4
    } else if name == "LPOP"@ {
        5
    } else if name == "RPOP"@ {
        6
    } else if name == "LRANGE"@ {
        7
    } else if name == "SADD"@ {
        8
    } else if name == "SREM"@ {
        9
    } else if name == "SMEMBERS"@ {
        10
    } else if name == "SISMEMBER"@ {
        11
    } else if name == "HSET"@ {
        12
    } else if name == "HGET"@ {
        13
    } else if name == "HDEL"@ {
        14
    } else if name == "HGETALL"@ {
        15
    } else if name == "ZADD"@ {
        16
    } else if name == "ZREM"@ {
        17
    } else if name == "ZRANGE"@ {
        18
    } else if name == "ZRANGEBYSCORE"@ {
        19
    } else if name == "MSET"@ {
        20
    } else if name == "MGET"@ {
        21
    } else if name == "DEL"@ {
        22
    } else if name == "INFO"@ {
        23
    } else {
        24
    }
}

/// What tells the names of the operations apart: the length and the first
/// three characters.
pub open spec fn shape(name: Text) -> (nat, char, char, char) {
    (name.len(), name[0], name[1], name[2])
}

/// The shapes of the names of the operations.
proof fn lemma_shapes()
    ensures
        shape("AUTH"@) == (4nat, 'A', 'U', 'T') && is_name("AUTH"@),
        shape("SET"@) == (3nat, 'S', 'E', 'T') && is_name("SET"@),
        shape("GET"@) == (3nat, 'G', 'E', 'T') && is_name("GET"@),
        shape("LPUSH"@) == (5nat, 'L', 'P', 'U') && is_name("LPUSH"@),
        shape("RPUSH"@) == (5nat, 'R', 'P', 'U') && is_name("RPUSH"@),
        shape("LPOP"@) == (4nat, 'L', 'P', 'O') && is_name("LPOP"@),
        shape("RPOP"@) == (4nat, 'R', 'P', 'O') && is_name("RPOP"@),
        shape("LRANGE"@) == (6nat, 'L', 'R', 'A') && is_name("LRANGE"@),
        shape("SADD"@) == (4nat, 'S', 'A', 'D') && is_name("SADD"@),
        shape("SREM"@) == (4nat, 'S', 'R', 'E') && is_name("SREM"@),
        shape("SMEMBERS"@) == (8nat, 'S', 'M', 'E') && is_name("SMEMBERS"@),
        shape("SISMEMBER"@) == (9nat, 'S', 'I', 'S') && is_name("SISMEMBER"@),
        shape("HSET"@) == (4nat, 'H', 'S', 'E') && is_name("HSET"@),
        shape("HGET"@) == (4nat, 'H', 'G', 'E') && is_name("HGET"@),
        shape("HDEL"@) == (4nat, 'H', 'D', 'E') && is_name("HDEL"@),
        shape("HGETALL"@) == (7nat, 'H', 'G', 'E') && is_name("HGETALL"@),
        shape("ZADD"@) == (4nat, 'Z', 'A', 'D') && is_name("ZADD"@),
        shape("ZREM"@) == (4nat, 'Z', 'R', 'E') && is_name("ZREM"@),
        shape("ZRANGE"@) == (6nat, 'Z', 'R', 'A') && is_name("ZRANGE"@),
        shape("ZRANGEBYSCORE"@) == (13nat, 'Z', 'R', 'A') && is_name("ZRANGEBYSCORE"@),
        shape("MSET"@) == (4nat, 'M', 'S', 'E') && is_name("MSET"@),
        shape("MGET"@) == (4nat, 'M', 'G', 'E') && is_name("MGET"@),
        shape("DEL"@) == (3nat, 'D', 'E', 'L') && is_name("DEL"@),
        shape("INFO"@) == (4nat, 'I', 'N', 'F') && is_name("INFO"@),
{
    reveal_strlit("AUTH");
    reveal_strlit("SET");
    reveal_strlit("GET");
    reveal_strlit("LPUSH");
    reveal_strlit("RPUSH");
    reveal_strlit("LPOP");
    reveal_strlit("RPOP");
    reveal_strlit("LRANGE");
    reveal_strlit("SADD");
    reveal_strlit("SREM");
    reveal_strlit("SMEMBERS");
    reveal_strlit("SISMEMBER");
    reveal_strlit("HSET");
    reveal_strlit("HGET");
    reveal_strlit("HDEL");
    reveal_strlit("HGETALL");
    reveal_strlit("ZADD");
    reveal_strlit("ZREM");
    reveal_strlit("ZRANGE");
    reveal_strlit("ZRANGEBYSCORE");
    reveal_strlit("MSET");
    reveal_strlit("MGET");
    reveal_strlit("DEL");
    reveal_strlit("INFO");
}

/// The names of the operations are different words, each its own upper-case
/// form.
pub proof fn lemma_operation_names()
    ensures
        number_of("AUTH"@) == 0 && upper("AUTH"@) == "AUTH"@ && is_word("AUTH"@),
        number_of("SET"@) == 1 && upper("SET"@) == "SET"@ && is_word("SET"@),
        number_of("GET"@) == 2 && upper("GET"@) == "GET"@ && is_word("GET"@),
        number_of("LPUSH"@) == 3 && upper("LPUSH"@) == "LPUSH"@ && is_word("LPUSH"@),
        number_of("RPUSH"@) == 4 && upper("RPUSH"@) == "RPUSH"@ && is_word("RPUSH"@),
        number_of("LPOP"@) == 5 && upper("LPOP"@) == "LPOP"@ && is_word("LPOP"@),
        number_of("RPOP"@) == 6 && upper("RPOP"@) == "RPOP"@ && is_word("RPOP"@),
        number_of("LRANGE"@) == 7 && upper("LRANGE"@) == "LRANGE"@ && is_word("LRANGE"@),
        number_of("SADD"@) == 8 && upper("SADD"@) == "SADD"@ && is_word("SADD"@),
        number_of("SREM"@) == 9 && upper("SREM"@) == "SREM"@ && is_word("SREM"@),
        number_of("SMEMBERS"@) == 10 && upper("SMEMBERS"@) == "SMEMBERS"@ && is_word("SMEMBERS"@),
        number_of("SISMEMBER"@) == 11 && upper("SISMEMBER"@) == "SISMEMBER"@ && is_word("SISMEMBER"@),
        number_of("HSET"@) == 12 && upper("HSET"@) == "HSET"@ && is_word("HSET"@),
        number_of("HGET"@) == 13 && upper("HGET"@) == "HGET"@ && is_word("HGET"@),
        number_of("HDEL"@) == 14 && upper("HDEL"@) == "HDEL"@ && is_word("HDEL"@),
        number_of("HGETALL"@) == 15 && upper("HGETALL"@) == "HGETALL"@ && is_word("HGETALL"@),
        number_of("ZADD"@) == 16 && upper("ZADD"@) == "ZADD"@ && is_word("ZADD"@),
        number_of("ZREM"@) == 17 && upper("ZREM"@) == "ZREM"@ && is_word("ZREM"@),
        number_of("ZRANGE"@) == 18 && upper("ZRANGE"@) == "ZRANGE"@ && is_word("ZRANGE"@),
        number_of("ZRANGEBYSCORE"@) == 19 && upper("ZRANGEBYSCORE"@) == "ZRANGEBYSCORE"@ && is_word("ZRANGEBYSCORE"@),
        number_of("MSET"@) == 20 && upper("MSET"@) == "MSET"@ && is_word("MSET"@),
        number_of("MGET"@) == 21 && upper("MGET"@) == "MGET"@ && is_word("MGET"@),
        number_of("DEL"@) == 22 && upper("DEL"@) == "DEL"@ && is_word("DEL"@),
        number_of("INFO"@) == 23 && upper("INFO"@) == "INFO"@ && is_word("INFO"@),
{
    lemma_shapes();
    lemma_name("AUTH"@);
    lemma_name("SET"@);
    lemma_name("GET"@);
    lemma_name("LPUSH"@);
    lemma_name("RPUSH"@);
    lemma_name("LPOP"@);
    lemma_name("RPOP"@);
    lemma_name("LRANGE"@);
    lemma_name("SADD"@);
    lemma_name("SREM"@);
    lemma_name("SMEMBERS"@);
    lemma_name("SISMEMBER"@);
    lemma_name("HSET"@);
    lemma_name("HGET"@);
    lemma_name("HDEL"@);
    lemma_name("HGETALL"@);
    lemma_name("ZADD"@);
    lemma_name("ZREM"@);
    lemma_name("ZRANGE"@);
    lemma_name("ZRANGEBYSCORE"@);
    lemma_name("MSET"@);
    lemma_name("MGET"@);
    lemma_name("DEL"@);
    lemma_name("INFO"@);
}

/// The arguments of a request that are free text.
pub open spec fn texts(command: CommandView) -> Seq<Text> {
    match command {
        CommandView::Auth { password } => seq![password],
        CommandView::SetString { key, value } => seq![key, value],
        CommandView::Get { key } => seq![key],
        CommandView::LPush { key, value } => seq![key, value],
        CommandView::RPush { key, value } => seq![key, value],
        CommandView::LPop { key } => seq![key],
        CommandView::RPop { key } => seq![key],
        CommandView::LRange { key, start, stop } => seq![key],
        CommandView::SAdd { key, member } => seq![key, member],
        CommandView::SRem { key, member } => seq![key, member],
        CommandView::SMembers { key } => seq![key],
        CommandView::SIsMember { key, member } => seq![key, member],
        CommandView::HSet { key, field, value } => seq![key, field, value],
        CommandView::HGet { key, field } => seq![key, field],
        CommandView::HGetAll { key } => seq![key],
        CommandView::HDel { key, field } => seq![key, field],
        CommandView::ZAdd { key, score, member } => seq![key, score.1, member],
        CommandView::ZRem { key, member } => seq![key, member],
        CommandView::ZRange { key, start, stop } => seq![key],
        CommandView::ZRangeByScore { key, min, max } => seq![key, min.1, max.1],
        CommandView::MSet(pairs) => pair_tokens(pairs),
        CommandView::MGet(keys) => keys,
        CommandView::Info => Seq::empty(),
        CommandView::Del(keys) => keys,
    }
}

/// A request that the wire can carry: its free-text arguments are words,
/// and a request on several keys names one key at least.
pub open spec fn well_formed(command: CommandView) -> bool {
    &&& all_words(texts(command))
    &&& command matches CommandView::MSet(pairs) ==> pairs.len() >= 1
    &&& command matches CommandView::MGet(keys) ==> keys.len() >= 1
    &&& command matches CommandView::Del(keys) ==> keys.len() >= 1
}

/// Whether `scores` holds, at the positions of the request's score tokens,
/// the scores of the request.
pub open spec fn scores_fit(command: CommandView, scores: Seq<Option<Score>>) -> bool {
    match command {
        CommandView::ZAdd { key, score, member } => score_at(scores, 2) == Some(score),
        CommandView::ZRangeByScore { key, min, max } => score_at(scores, 2) == Some(min)
            && score_at(scores, 3) == Some(max),
        _ => true,
    }
}

/// The tokens of a well-formed request are words.
pub proof fn lemma_command_tokens_are_words(command: CommandView)
    requires
        well_formed(command),
    ensures
        all_words(command_tokens(command)),
{
    lemma_operation_names();
    let ts = command_tokens(command);
    let args = texts(command);
    match command {
        CommandView::LRange { key, start, stop } => {
            lemma_read_signed_decimal(start);
            lemma_read_signed_decimal(stop);
            assert(is_word(args[0]));
        },
        CommandView::ZRange { key, start, stop } => {
            lemma_read_signed_decimal(start);
            lemma_read_signed_decimal(stop);
            assert(is_word(args[0]));
        },
        CommandView::ZAdd { key, score, member } => {
            assert(is_word(args[0]) && is_word(args[1]) && is_word(args[2]));
        },
        _ => {
            assert forall|i: int| 0 <= i < ts.len() implies is_word(#[trigger] ts[i]) by {
                if i > 0 {
                    assert(ts[i] == args[i - 1]);
                    assert(is_word(args[i - 1]));
                }
            }
        },
    }
}

/// The pairs of the tokens of pairs are the pairs.
pub proof fn lemma_pairs_of_tokens(pairs: Seq<(Text, Text)>)
    ensures
        pairs_of(pair_tokens(pairs)) == pairs,
{
    let ts = pair_tokens(pairs);
    assert(ts.len() == 2 * pairs.len());
    assert forall|i: int| 0 <= i < pairs.len() implies pairs_of(ts)[i] == pairs[i] by {
        assert(ts[2 * i] == pairs[i].0);
        assert(ts[2 * i + 1] == pairs[i].1);
    }
    assert(pairs_of(ts) =~= pairs);
}

/// Which group of operations decodes a request: the one of the name that
/// the first token is, up to ASCII case.
pub proof fn lemma_groups(parts: Seq<Text>, scores: Seq<Option<Score>>)
    requires
        parts.len() > 0,
    ensures
        ({
            let op = upper(parts[0]);
            let n = number_of(op);
            &&& 0 <= n < 3 ==> decode_plain(op, parts) == Some(decode_spec(parts, scores))
            &&& 3 <= n < 8 ==> decode_list(op, parts) == Some(decode_spec(parts, scores))
            &&& 8 <= n < 12 ==> decode_members(op, parts) == Some(decode_spec(parts, scores))
            &&& 12 <= n < 16 ==> decode_hash(op, parts) == Some(decode_spec(parts, scores))
            &&& 16 <= n < 20 ==> decode_sorted(op, parts, scores) == Some(
                decode_spec(parts, scores),
            )
            &&& 20 <= n < 24 ==> decode_multi(op, parts) == Some(decode_spec(parts, scores))
        }),
{
}

/// The round trip of `AUTH`, `SET` and `GET`.
proof fn lemma_round_plain(command: CommandView, scores: Seq<Option<Score>>)
    requires
        well_formed(command),
        scores_fit(command, scores),
        command is Auth || command is SetString || command is Get,
    ensures
        decode_spec(command_tokens(command), scores) == Ok::<CommandView, Text>(command),
{
    lemma_operation_names();
    let ts = command_tokens(command);
    lemma_groups(ts, scores);
}

/// The round trip of the requests on lists.
proof fn lemma_round_list(command: CommandView, scores: Seq<Option<Score>>)
    requires
        well_formed(command),
        scores_fit(command, scores),
        command is LPush || command is RPush || command is LPop || command is RPop || command is LRange,
    ensures
        decode_spec(command_tokens(command), scores) == Ok::<CommandView, Text>(command),
{
    lemma_operation_names();
    let ts = command_tokens(command);
    lemma_groups(ts, scores);
    match command {
        CommandView::LRange { key, start, stop } => {
            lemma_read_signed_decimal(start);
            lemma_read_signed_decimal(stop);
        },
        _ => {},
    }
}

/// The round trip of the requests on sets.
proof fn lemma_round_members(command: CommandView, scores: Seq<Option<Score>>)
    requires
        well_formed(command),
        scores_fit(command, scores),
        command is SAdd || command is SRem || command is SMembers || command is SIsMember,
    ensures
        decode_spec(command_tokens(command), scores) == Ok::<CommandView, Text>(command),
{
    lemma_operation_names();
    let ts = command_tokens(command);
    lemma_groups(ts, scores);
}

/// The round trip of the requests on hashes.
proof fn lemma_round_hash(command: CommandView, scores: Seq<Option<Score>>)
    requires
        well_formed(command),
        scores_fit(command, scores),
        command is HSet || command is HGet || command is HGetAll || command is HDel,
    ensures
        decode_spec(command_tokens(command), scores) == Ok::<CommandView, Text>(command),
{
    lemma_operation_names();
    let ts = command_tokens(command);
    lemma_groups(ts, scores);
}

/// The round trip of the requests on sorted sets.
proof fn lemma_round_sorted(command: CommandView, scores: Seq<Option<Score>>)
    requires
        well_formed(command),
        scores_fit(command, scores),
        command is ZAdd || command is ZRem || command is ZRange || command is ZRangeByScore,
    ensures
        decode_spec(command_tokens(command), scores) == Ok::<CommandView, Text>(command),
{
    lemma_operation_names();
    let ts = command_tokens(command);
    lemma_groups(ts, scores);
    match command {
        CommandView::ZRange { key, start, stop } => {
            lemma_read_signed_decimal(start);
            lemma_read_signed_decimal(stop);
        },
        _ => {},
    }
}

/// The round trip of `MSET`, `MGET`, `DEL` and `INFO`.
proof fn lemma_round_multi(command: CommandView, scores: Seq<Option<Score>>)
    requires
        well_formed(command),
        scores_fit(command, scores),
        command is MSet || command is MGet || command is Info || command is Del,
    ensures
        decode_spec(command_tokens(command), scores) == Ok::<CommandView, Text>(command),
{
    lemma_operation_names();
    let ts = command_tokens(command);
    lemma_groups(ts, scores);
    match command {
        CommandView::MSet(pairs) => {
            lemma_pairs_of_tokens(pairs);
            assert(ts.skip(1) =~= pair_tokens(pairs));
        },
        CommandView::MGet(keys) => {
            assert(ts.skip(1) =~= keys);
        },
        CommandView::Del(keys) => {
            assert(ts.skip(1) =~= keys);
        },
        _ => {},
    }
}

/// Encoding then decoding: the line of a well-formed request decodes to the
/// request, given the scores that its score tokens denote.
pub proof fn law_decode_after_encode(command: CommandView, scores: Seq<Option<Score>>)
    requires
        well_formed(command),
        scores_fit(command, scores),
    ensures
        decode_spec(tokens(command_line(command)), scores) == Ok::<CommandView, Text>(command),
{
    lemma_command_tokens_are_words(command);
    lemma_tokens_of_line(command_tokens(command));
    if command is Auth || command is SetString || command is Get {
        lemma_round_plain(command, scores);
    } else if command is LPush || command is RPush || command is LPop || command is RPop
        || command is LRange {
        lemma_round_list(command, scores);
    } else if command is SAdd || command is SRem || command is SMembers || command is SIsMember {
        lemma_round_members(command, scores);
    } else if command is HSet || command is HGet || command is HGetAll || command is HDel {
        lemma_round_hash(command, scores);
    } else if command is ZAdd || command is ZRem || command is ZRange || command is ZRangeByScore {
        lemma_round_sorted(command, scores);
    } else {
        lemma_round_multi(command, scores);
    }
}

} // verus!
