//! The Redis `LPUSH` and `RPUSH` commands: `LPUSH <key> <value> [value ...]`
//! and `RPUSH <key> <value> [value ...]`.
use vstd::prelude::*;
use vstd::string::*;

use crate::command::{CommandError, CommandErrorView};
use crate::resp::types::{lemma_view_elements, view_elements, RespType, RespValue};
use crate::storage::{push_spec, KeyValueStore, StoreView};
use crate::text::concat3;

verus! {

/// The Redis `LPUSH` command: `LPUSH <key> <value> [value ...]` - pushes
/// each value onto the head (front) of the list, creating it if needed.
#[derive(Debug)]
pub struct LPushCommand {
    key: String,
    values: Vec<String>,
}

/// The Redis `RPUSH` command: `RPUSH <key> <value> [value ...]` - pushes
/// each value onto the tail (back) of the list, creating it if needed.
#[derive(Debug)]
pub struct RPushCommand {
    key: String,
    values: Vec<String>,
}

impl View for LPushCommand {
    type V = (Seq<char>, Seq<Seq<char>>);

    closed spec fn view(&self) -> (Seq<char>, Seq<Seq<char>>) {
        (self.key@, self.values.deep_view())
    }
}

impl View for RPushCommand {
    type V = (Seq<char>, Seq<Seq<char>>);

    closed spec fn view(&self) -> (Seq<char>, Seq<Seq<char>>) {
        (self.key@, self.values.deep_view())
    }
}

/// Every value of `s` is a bulk string.
pub open spec fn all_bulk_strings(s: Seq<RespValue>) -> bool {
    forall|i: int| 0 <= i < s.len() ==> #[trigger] s[i] is BulkString
}

/// The texts of the bulk strings `s`.
pub open spec fn bulk_texts(s: Seq<RespValue>) -> Seq<Seq<char>> {
    s.map_values(|v: RespValue| v->BulkString_0)
}

/// The key and values that the arguments of a push command give: a bulk
/// string key and one or more bulk string values. `name` and `upper` are the
/// command's name in lower and upper case, as the error messages word it.
pub open spec fn push_arguments_spec(
    name: Seq<char>,
    upper: Seq<char>,
    args: Seq<RespValue>,
) -> Result<(Seq<char>, Seq<Seq<char>>), CommandErrorView> {
    if args.len() < 2 {
        Err(
            CommandErrorView::InvalidArguments(
                "ERR wrong number of arguments for '"@ + name + "' command"@,
            ),
        )
    } else {
        match args[0] {
            RespValue::BulkString(key) => {
                let values = args.subrange(1, args.len() as int);
                if all_bulk_strings(values) {
                    Ok((key, bulk_texts(values)))
                } else {
                    Err(
                        CommandErrorView::InvalidArguments(
                            "ERR "@ + upper + " values must be bulk strings"@,
                        ),
                    )
                }
            },
            _ => Err(
                CommandErrorView::InvalidArguments("ERR "@ + upper + " key must be a bulk string"@),
            ),
        }
    }
}

/// A push of `values` onto the head (`at_front`) or tail of the list at
/// `key` in `m`: the reply (the list's new length, or `WRONGTYPE`) and what
/// the store holds afterwards.
pub open spec fn push_reply(key: Seq<char>, values: Seq<Seq<char>>, at_front: bool, m: StoreView) -> (
    RespValue,
    StoreView,
) {
    let (m2, r) = push_spec(m, key, values, at_front);
    (
        match r {
            Ok(n) => RespValue::Integer(n as i64),
            Err(e) => RespValue::SimpleError(e.spec_message()),
        },
        m2,
    )
}

impl LPushCommand {
    /// Build an `LPushCommand` from the arguments that followed `LPUSH` in
    /// the command array (i.e. everything except the command name itself).
    pub fn from_arguments(arguments: Vec<RespType>) -> (r: Result<LPushCommand, CommandError>)
        ensures
            match r {
                Ok(c) => push_arguments_spec("lpush"@, "LPUSH"@, view_elements(arguments@))
                    == Ok::<(Seq<char>, Seq<Seq<char>>), CommandErrorView>(c@),
                Err(e) => push_arguments_spec("lpush"@, "LPUSH"@, view_elements(arguments@))
                    == Err::<(Seq<char>, Seq<Seq<char>>), CommandErrorView>(e@),
            },
    {
        match parse_key_and_values("lpush", "LPUSH", arguments) {
            Ok((key, values)) => Ok(LPushCommand { key, values }),
            Err(e) => Err(e),
        }
    }

    /// Push the values and reply with the list's new length.
    pub fn execute(self, store: &mut KeyValueStore) -> (r: RespType)
        ensures
            (r@, final(store)@) == push_reply(self@.0, self@.1, true, old(store)@),
    {
        match store.push_front(self.key, self.values) {
            Ok(length) => RespType::Integer(length as i64),
            Err(error) => RespType::SimpleError(error.message()),
        }
    }
}

impl RPushCommand {
    /// Build an `RPushCommand` from the arguments that followed `RPUSH` in
    /// the command array (i.e. everything except the command name itself).
    pub fn from_arguments(arguments: Vec<RespType>) -> (r: Result<RPushCommand, CommandError>)
        ensures
            match r {
                Ok(c) => push_arguments_spec("rpush"@, "RPUSH"@, view_elements(arguments@))
                    == Ok::<(Seq<char>, Seq<Seq<char>>), CommandErrorView>(c@),
                Err(e) => push_arguments_spec("rpush"@, "RPUSH"@, view_elements(arguments@))
                    == Err::<(Seq<char>, Seq<Seq<char>>), CommandErrorView>(e@),
            },
    {
        match parse_key_and_values("rpush", "RPUSH", arguments) {
            Ok((key, values)) => Ok(RPushCommand { key, values }),
            Err(e) => Err(e),
        }
    }

    /// Push the values and reply with the list's new length.
    pub fn execute(self, store: &mut KeyValueStore) -> (r: RespType)
        ensures
            (r@, final(store)@) == push_reply(self@.0, self@.1, false, old(store)@),
    {
        match store.push_back(self.key, self.values) {
            Ok(length) => RespType::Integer(length as i64),
            Err(error) => RespType::SimpleError(error.message()),
        }
    }
}

/// Shared argument parsing for `LPUSH`/`RPUSH`: `<key> <value> [value ...]`.
/// `command_name` and `upper_name` are the command's name in lower and upper
/// case, used only to word the error messages.
fn parse_key_and_values(command_name: &str, upper_name: &str, arguments: Vec<RespType>) -> (r:
    Result<(String, Vec<String>), CommandError>)
    ensures
        match r {
            Ok((key, values)) => push_arguments_spec(
                command_name@,
                upper_name@,
                view_elements(arguments@),
            ) == Ok::<(Seq<char>, Seq<Seq<char>>), CommandErrorView>((key@, values.deep_view())),
            Err(e) => push_arguments_spec(command_name@, upper_name@, view_elements(arguments@))
                == Err::<(Seq<char>, Seq<Seq<char>>), CommandErrorView>(e@),
        },
{
    proof {
        lemma_view_elements(arguments@);
    }
    let ghost args = view_elements(arguments@);
    if arguments.len() < 2 {
        return Err(
            CommandError::InvalidArguments(
                concat3("ERR wrong number of arguments for '", command_name, "' command"),
            ),
        );
    }
    let key = match &arguments[0] {
        RespType::BulkString(key) => key.clone(),
        _ => {
            return Err(
                CommandError::InvalidArguments(
                    concat3("ERR ", upper_name, " key must be a bulk string"),
                ),
            );
        },
    };
    let ghost rest = args.subrange(1, args.len() as int);
    let mut values: Vec<String> = Vec::new();
    let mut i: usize = 1;
    while i < arguments.len()
        invariant
            1 <= i <= arguments.len(),
            args == view_elements(arguments@),
            args.len() == arguments@.len(),
            forall|j: int| 0 <= j < arguments@.len() ==> #[trigger] args[j] == arguments@[j]@,
            rest == args.subrange(1, args.len() as int),
            args.len() >= 2,
            args[0] == RespValue::BulkString(key@),
            all_bulk_strings(rest.take(i - 1)),
            values.deep_view() == bulk_texts(rest.take(i - 1)),
        decreases arguments.len() - i,
    {
        match &arguments[i] {
            RespType::BulkString(value) => {
                let ghost prev = values@;
                let ghost prevd = values.deep_view();
                let v = value.clone();
                values.push(v);
                proof {
                    assert(values@ == prev.push(v));
                    assert(args[i as int] == arguments@[i as int]@);
                    assert(args[i as int] == RespValue::BulkString(value@));
                    assert(prevd.len() == i - 1);
                    assert(prev.len() == prevd.len());
                    assert(values@[i - 1] == v);
                    assert(values.deep_view()[i - 1] == v@);
                    assert forall|k: int| 0 <= k < prev.len() implies #[trigger] values.deep_view()[k]
                        == prevd[k] by {}
                    assert(all_bulk_strings(rest.take(i as int))) by {
                        assert forall|k: int| 0 <= k < i implies #[trigger] rest.take(i as int)[k] is BulkString by {
                            if k < i - 1 {
                                assert(rest.take(i as int)[k] == rest.take(i - 1)[k]);
                            }
                        }
                    }
                    assert(rest.take(i as int) =~= rest.take(i - 1).push(args[i as int]));
                    assert(values.deep_view() =~= bulk_texts(rest.take(i as int)));
                }
            },
            _ => {
                proof {
                    assert(args[i as int] == arguments@[i as int]@);
                    assert(!(rest[i - 1] is BulkString));
                    assert(!all_bulk_strings(rest));
                }
                return Err(
                    CommandError::InvalidArguments(
                        concat3("ERR ", upper_name, " values must be bulk strings"),
                    ),
                );
            },
        }
        i = i + 1;
    }
    proof {
        assert(rest.take(i - 1) =~= rest);
    }
    Ok((key, values))
}

} // verus!
