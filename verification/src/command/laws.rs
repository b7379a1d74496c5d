//! What the command set promises as a whole: names are matched without
//! regard to case, a `GET` reads what a `SET` wrote, a pushed list reads
//! back whole, and malformed requests leave the store as it is.
use vstd::prelude::*;

use crate::command::lrange::lrange_reply;
use crate::command::push::push_arguments_spec;
use crate::command::lrange::{index_argument_spec, lrange_arguments_spec};
use crate::command::{
    from_elements_spec,
    dispatch_spec,
    execute_spec,
    not_a_command_message,
    reply_spec,
    writes_store_spec,
    CommandErrorView,
    CommandSpec,
};
use crate::resp::types::RespValue;
use crate::storage::{
    lemma_push_then_range,
    list_at,
    lookup,
    StorageError,
    StoreView,
    StoredValue,
};
use crate::number::{lemma_decimal_digits, lemma_i64_of_signed_decimal, signed_decimal};
use crate::storage::list_range;
use crate::text::{ascii_chars, lemma_ascii_chars_encode, lowercase};

verus! {

/// Two names with the same lowercase form name the same command with the
/// same arguments: command names are case-insensitive.
pub proof fn lemma_names_case_insensitive(name1: Seq<char>, name2: Seq<char>, args: Seq<RespValue>)
    requires
        lowercase(name1) == lowercase(name2),
        dispatch_spec(name1, lowercase(name1), args) is Ok,
    ensures
        dispatch_spec(name2, lowercase(name2), args) == dispatch_spec(
            name1,
            lowercase(name1),
            args,
        ),
{
}

/// A name whose lowercase form is none of the commands is answered with
/// `ERR unknown command '<name>'`, the name as the client sent it.
pub proof fn lemma_unknown_command(name: Seq<char>, args: Seq<RespValue>)
    requires
        lowercase(name) != "ping"@,
        lowercase(name) != "set"@,
        lowercase(name) != "get"@,
        lowercase(name) != "lpush"@,
        lowercase(name) != "rpush"@,
        lowercase(name) != "lrange"@,
    ensures
        dispatch_spec(name, lowercase(name), args) == Err::<CommandSpec, CommandErrorView>(
            CommandErrorView::UnknownCommand("ERR unknown command '"@ + name + "'"@),
        ),
{
}

/// `GET key` after `SET key value` replies `value`; the `SET` itself
/// replies `+OK`.
pub proof fn lemma_set_then_get(m: StoreView, key: Seq<char>, value: Seq<char>)
    ensures
        execute_spec(CommandSpec::SetKey(key, value), m).0 == RespValue::SimpleString("OK"@),
        execute_spec(CommandSpec::Get(key), execute_spec(CommandSpec::SetKey(key, value), m).1).0
            == RespValue::BulkString(value),
{
}

/// `GET` of a key that holds nothing replies with the null bulk string.
pub proof fn lemma_get_missing(m: StoreView, key: Seq<char>)
    requires
        lookup(m, key) is None,
    ensures
        execute_spec(CommandSpec::Get(key), m).0 == RespValue::NullBulkString,
{
}

/// `PING` replies `+PONG`, and `PING message` echoes the message.
pub proof fn lemma_ping(m: StoreView, message: Seq<char>)
    ensures
        execute_spec(CommandSpec::Ping(None), m) == (RespValue::SimpleString("PONG"@), m),
        execute_spec(CommandSpec::Ping(Some(message)), m) == (RespValue::BulkString(message), m),
{
}

/// Commands that only read (`PING`, `GET`, `LRANGE`) leave the store as it is.
pub proof fn lemma_readers_keep_store(c: CommandSpec, m: StoreView)
    requires
        !writes_store_spec(c),
    ensures
        execute_spec(c, m).1 == m,
{
}

/// `RPUSH key v1 .. vn` appends the values to the list at `key` and replies
/// with its new length; `LRANGE key 0 -1` then replies the whole list.
/// `LPUSH` puts them in front, each onto the head in turn.
pub proof fn lemma_push_then_lrange(
    m: StoreView,
    key: Seq<char>,
    values: Seq<Seq<char>>,
    at_front: bool,
)
    requires
        !(lookup(m, key) matches Some(StoredValue::Text(_))),
        values.len() > 0,
    ensures
        ({
            let new_list = if at_front {
                values.reverse() + list_at(m, key)
            } else {
                list_at(m, key) + values
            };
            let c = if at_front {
                CommandSpec::LPush(key, values)
            } else {
                CommandSpec::RPush(key, values)
            };
            let (reply, m2) = execute_spec(c, m);
            &&& reply == RespValue::Integer(new_list.len() as i64)
            &&& lrange_reply(key, 0i64, -1i64, m2) == RespValue::Array(
                new_list.map_values(|t: Seq<char>| RespValue::BulkString(t)),
            )
        }),
{
    lemma_push_then_range(m, key, values, at_front);
}

/// A list command on a key that holds a string, and `GET` on a key that
/// holds a list, reply `WRONGTYPE` and leave the store as it is.
pub proof fn lemma_wrong_type_replies(
    m: StoreView,
    key: Seq<char>,
    values: Seq<Seq<char>>,
    start: i64,
    stop: i64,
)
    ensures
        lookup(m, key) matches Some(StoredValue::Text(_)) ==> {
            &&& execute_spec(CommandSpec::LPush(key, values), m) == (
                RespValue::SimpleError(StorageError::WrongType.spec_message()),
                m,
            )
            &&& execute_spec(CommandSpec::RPush(key, values), m) == (
                RespValue::SimpleError(StorageError::WrongType.spec_message()),
                m,
            )
            &&& execute_spec(CommandSpec::LRange(key, start, stop), m) == (
                RespValue::SimpleError(StorageError::WrongType.spec_message()),
                m,
            )
        },
        lookup(m, key) matches Some(StoredValue::List(_)) ==> execute_spec(
            CommandSpec::Get(key),
            m,
        ) == (RespValue::SimpleError(StorageError::WrongType.spec_message()), m),
{
}

/// A request that is no array, or an array that makes no command, is
/// answered with a SimpleError and leaves the store as it is.
pub proof fn lemma_malformed_requests_keep_store(request: RespValue, m: StoreView)
    requires
        !(request is Array) || (request matches RespValue::Array(elements)
            && crate::command::from_elements_spec(elements) is Err),
    ensures
        reply_spec(request, m).1 == m,
        reply_spec(request, m).0 is SimpleError,
        !(request is Array) ==> reply_spec(request, m).0 == RespValue::SimpleError(
            not_a_command_message(),
        ),
{
}

// ---------------------------------------------------------------------------
// Requests, as a client sends them.
// ---------------------------------------------------------------------------

/// The request array of bulk strings `words`.
pub open spec fn words_request(words: Seq<Seq<char>>) -> RespValue {
    RespValue::Array(words.map_values(|w: Seq<char>| RespValue::BulkString(w)))
}

/// The lowercase forms of the command names are distinct texts.
proof fn lemma_command_names_distinct()
    ensures
        "ping"@ != "set"@,
        "ping"@ != "get"@,
        "ping"@ != "lpush"@,
        "ping"@ != "rpush"@,
        "ping"@ != "lrange"@,
        "set"@ != "get"@,
        "set"@ != "lpush"@,
        "set"@ != "rpush"@,
        "set"@ != "lrange"@,
        "get"@ != "lpush"@,
        "get"@ != "rpush"@,
        "get"@ != "lrange"@,
        "lpush"@ != "rpush"@,
        "lpush"@ != "lrange"@,
        "rpush"@ != "lrange"@,
{
    reveal_strlit("ping");
    reveal_strlit("set");
    reveal_strlit("get");
    reveal_strlit("lpush");
    reveal_strlit("rpush");
    reveal_strlit("lrange");
    assert("ping"@[0] != "set"@[0]);
    assert("ping"@[0] != "get"@[0]);
    assert("ping"@.len() != "lpush"@.len());
    assert("ping"@[0] != "rpush"@[0]);
    assert("ping"@.len() != "lrange"@.len());
    assert("set"@[0] != "get"@[0]);
    assert("set"@.len() != "lpush"@.len());
    assert("set"@.len() != "rpush"@.len());
    assert("set"@.len() != "lrange"@.len());
    assert("get"@.len() != "lpush"@.len());
    assert("get"@.len() != "rpush"@.len());
    assert("get"@.len() != "lrange"@.len());
    assert("lpush"@[0] != "rpush"@[0]);
    assert("lpush"@.len() != "lrange"@.len());
    assert("rpush"@.len() != "lrange"@.len());
}

/// `SET key value` stores `value` under `key` exactly as sent, and replies
/// `+OK`; a following `GET key` replies `value` exactly as sent, whatever the
/// case of the command names.
pub proof fn lemma_set_request_then_get_request(
    m: StoreView,
    set_name: Seq<char>,
    get_name: Seq<char>,
    key: Seq<char>,
    value: Seq<char>,
)
    requires
        lowercase(set_name) == "set"@,
        lowercase(get_name) == "get"@,
    ensures
        from_elements_spec(
            seq![
                RespValue::BulkString(set_name),
                RespValue::BulkString(key),
                RespValue::BulkString(value),
            ],
        ) == Ok::<CommandSpec, CommandErrorView>(CommandSpec::SetKey(key, value)),
        from_elements_spec(seq![RespValue::BulkString(get_name), RespValue::BulkString(key)])
            == Ok::<CommandSpec, CommandErrorView>(CommandSpec::Get(key)),
        ({
            let (set_reply, m2) = reply_spec(words_request(seq![set_name, key, value]), m);
            &&& set_reply == RespValue::SimpleString("OK"@)
            &&& lookup(m2, key) == Some(StoredValue::Text(value))
            &&& forall|other: Seq<char>| other != key ==> #[trigger] lookup(m2, other) == lookup(m, other)
            &&& reply_spec(words_request(seq![get_name, key]), m2) == (
                RespValue::BulkString(value),
                m2,
            )
        }),
{
    lemma_command_names_distinct();
    let set_words = seq![set_name, key, value];
    let get_words = seq![get_name, key];
    let set_elements = seq![
        RespValue::BulkString(set_name),
        RespValue::BulkString(key),
        RespValue::BulkString(value),
    ];
    let get_elements = seq![RespValue::BulkString(get_name), RespValue::BulkString(key)];
    assert(set_words.map_values(|w: Seq<char>| RespValue::BulkString(w)) =~= set_elements);
    assert(get_words.map_values(|w: Seq<char>| RespValue::BulkString(w)) =~= get_elements);
    assert(set_elements.subrange(1, 3) =~= seq![
        RespValue::BulkString(key),
        RespValue::BulkString(value),
    ]);
    assert(get_elements.subrange(1, 2) =~= seq![RespValue::BulkString(key)]);
}

/// `GET key` reads exactly the key it is given: it replies the string that
/// key holds, or the null bulk string where it holds nothing, and leaves
/// the store as it is.
pub proof fn lemma_get_request_reads_its_key(m: StoreView, get_name: Seq<char>, key: Seq<char>)
    requires
        lowercase(get_name) == "get"@,
    ensures
        lookup(m, key) matches Some(StoredValue::Text(t)) ==> reply_spec(
            words_request(seq![get_name, key]),
            m,
        ) == (RespValue::BulkString(t), m),
        lookup(m, key) is None ==> reply_spec(words_request(seq![get_name, key]), m) == (
            RespValue::NullBulkString,
            m,
        ),
{
    lemma_command_names_distinct();
    let get_elements = seq![RespValue::BulkString(get_name), RespValue::BulkString(key)];
    assert(seq![get_name, key].map_values(|w: Seq<char>| RespValue::BulkString(w))
        =~= get_elements);
    assert(get_elements.subrange(1, 2) =~= seq![RespValue::BulkString(key)]);
}

/// `PING message` echoes `message` exactly as sent; `PING` alone replies
/// `+PONG`. Neither changes the store.
pub proof fn lemma_ping_request_echoes(m: StoreView, ping_name: Seq<char>, message: Seq<char>)
    requires
        lowercase(ping_name) == "ping"@,
    ensures
        from_elements_spec(seq![RespValue::BulkString(ping_name), RespValue::BulkString(message)])
            == Ok::<CommandSpec, CommandErrorView>(CommandSpec::Ping(Some(message))),
        reply_spec(words_request(seq![ping_name, message]), m) == (
            RespValue::BulkString(message),
            m,
        ),
        reply_spec(words_request(seq![ping_name]), m) == (RespValue::SimpleString("PONG"@), m),
{
    let elements = seq![RespValue::BulkString(ping_name), RespValue::BulkString(message)];
    assert(seq![ping_name, message].map_values(|w: Seq<char>| RespValue::BulkString(w))
        =~= elements);
    assert(elements.subrange(1, 2) =~= seq![RespValue::BulkString(message)]);
    let alone = seq![RespValue::BulkString(ping_name)];
    assert(seq![ping_name].map_values(|w: Seq<char>| RespValue::BulkString(w)) =~= alone);
    assert(alone.subrange(1, 1) =~= Seq::<RespValue>::empty());
}

/// The arguments of a push command, a key and one or more values, are taken
/// exactly as sent: the key, and the values in the order given.
pub proof fn lemma_push_arguments_as_sent(
    name: Seq<char>,
    upper: Seq<char>,
    key: Seq<char>,
    values: Seq<Seq<char>>,
)
    requires
        values.len() > 0,
    ensures
        push_arguments_spec(
            name,
            upper,
            seq![RespValue::BulkString(key)] + values.map_values(
                |w: Seq<char>| RespValue::BulkString(w),
            ),
        ) == Ok::<(Seq<char>, Seq<Seq<char>>), CommandErrorView>((key, values)),
{
    let bulks = values.map_values(|w: Seq<char>| RespValue::BulkString(w));
    let args = seq![RespValue::BulkString(key)] + bulks;
    assert(args.subrange(1, args.len() as int) =~= bulks);
    assert(crate::command::push::bulk_texts(bulks) =~= values);
}

/// `RPUSH key v1 .. vn` (or `LPUSH`), sent with any case of the name, leaves
/// `key` holding its old list with the values, exactly as sent, appended
/// after it in the order given (`LPUSH`: put in front, the last value
/// first), and replies with the new length. On a key that held nothing,
/// the list is the values themselves.
pub proof fn lemma_push_request_stores_values(
    m: StoreView,
    name: Seq<char>,
    key: Seq<char>,
    values: Seq<Seq<char>>,
    at_front: bool,
)
    requires
        at_front ==> lowercase(name) == "lpush"@,
        !at_front ==> lowercase(name) == "rpush"@,
        values.len() > 0,
        !(lookup(m, key) matches Some(StoredValue::Text(_))),
    ensures
        ({
            let old_list = list_at(m, key);
            let (reply, m2) = reply_spec(words_request(seq![name, key] + values), m);
            let new_list = list_at(m2, key);
            &&& reply == RespValue::Integer((old_list.len() + values.len()) as i64)
            &&& new_list.len() == old_list.len() + values.len()
            &&& !at_front ==> forall|i: int|
                0 <= i < old_list.len() ==> #[trigger] new_list[i] == old_list[i]
            &&& !at_front ==> forall|i: int|
                0 <= i < values.len() ==> #[trigger] new_list[old_list.len() + i] == values[i]
            &&& at_front ==> forall|i: int|
                0 <= i < values.len() ==> #[trigger] new_list[i] == values[values.len() - 1 - i]
            &&& at_front ==> forall|i: int|
                0 <= i < old_list.len() ==> #[trigger] new_list[values.len() + i] == old_list[i]
            &&& lookup(m, key) is None ==> !at_front ==> new_list == values
            &&& forall|other: Seq<char>| other != key ==> #[trigger] lookup(m2, other) == lookup(m, other)
        }),
{
    lemma_command_names_distinct();
    let words = seq![name, key] + values;
    let elements = words.map_values(|w: Seq<char>| RespValue::BulkString(w));
    let bulks = values.map_values(|w: Seq<char>| RespValue::BulkString(w));
    assert(elements.subrange(1, elements.len() as int) =~= seq![RespValue::BulkString(key)]
        + bulks);
    assert(elements[0] == RespValue::BulkString(name));
    lemma_push_arguments_as_sent("lpush"@, "LPUSH"@, key, values);
    lemma_push_arguments_as_sent("rpush"@, "RPUSH"@, key, values);
    lemma_push_then_range(m, key, values, at_front);
    if lookup(m, key) is None {
        assert(list_at(m, key) + values =~= values);
    }
}

/// The decimal text of `n`, as a client writes an index argument.
pub open spec fn index_text(n: i64) -> Seq<char> {
    ascii_chars(signed_decimal(n as int))
}

/// An index argument written in decimal reads as the number written.
pub proof fn lemma_index_argument_reads_number(n: i64)
    ensures
        index_argument_spec(RespValue::BulkString(index_text(n))) == Ok::<i64, CommandErrorView>(
            n,
        ),
{
    let d = signed_decimal(n as int);
    lemma_i64_of_signed_decimal(n);
    if n < 0 {
        lemma_decimal_digits((-n) as nat);
        assert forall|i: int| 0 <= i < d.len() implies #[trigger] d[i] < 128 by {
            if i > 0 {
                assert(d[i] == crate::number::decimal((-n) as nat)[i - 1]);
                assert(crate::number::is_digit(crate::number::decimal((-n) as nat)[i - 1]));
            }
        }
    } else {
        lemma_decimal_digits(n as nat);
        assert forall|i: int| 0 <= i < d.len() implies #[trigger] d[i] < 128 by {
            assert(crate::number::is_digit(d[i]));
        }
    }
    lemma_ascii_chars_encode(d);
}

/// `LRANGE key start stop`, sent with any case of the name and with the
/// indices in decimal, reads exactly the key it is given with exactly the
/// indices written: it replies the part of the list that `start` and `stop`
/// select, each element exactly as stored, and leaves the store as it is.
pub proof fn lemma_lrange_request_reads_its_key(
    m: StoreView,
    name: Seq<char>,
    key: Seq<char>,
    start: i64,
    stop: i64,
)
    requires
        lowercase(name) == "lrange"@,
    ensures
        lrange_arguments_spec(
            seq![
                RespValue::BulkString(key),
                RespValue::BulkString(index_text(start)),
                RespValue::BulkString(index_text(stop)),
            ],
        ) == Ok::<(Seq<char>, i64, i64), CommandErrorView>((key, start, stop)),
        !(lookup(m, key) matches Some(StoredValue::Text(_))) ==> reply_spec(
            words_request(seq![name, key, index_text(start), index_text(stop)]),
            m,
        ) == (
            RespValue::Array(
                list_range(list_at(m, key), start as int, stop as int).map_values(
                    |t: Seq<char>| RespValue::BulkString(t),
                ),
            ),
            m,
        ),
{
    lemma_command_names_distinct();
    lemma_index_argument_reads_number(start);
    lemma_index_argument_reads_number(stop);
    let words = seq![name, key, index_text(start), index_text(stop)];
    let elements = words.map_values(|w: Seq<char>| RespValue::BulkString(w));
    assert(elements.subrange(1, 4) =~= seq![
        RespValue::BulkString(key),
        RespValue::BulkString(index_text(start)),
        RespValue::BulkString(index_text(stop)),
    ]);
    assert(elements[0] == RespValue::BulkString(name));
}

} // verus!
