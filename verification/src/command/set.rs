//! The Redis `SET` command: `SET <key> <value>`.
use vstd::prelude::*;
use vstd::string::*;

use crate::command::{CommandError, CommandErrorView};
use crate::resp::types::{lemma_view_elements, view_elements, RespType, RespValue};
use crate::storage::{KeyValueStore, StoreView, StoredValue, Value};

verus! {

/// The Redis `SET` command: `SET <key> <value>`.
///
/// Advanced options (`EX`, `PX`, `NX`, ...) aren't supported: a `SET` with
/// anything other than exactly a key and a value is rejected outright rather
/// than silently ignoring the extra arguments.
#[derive(Debug)]
pub struct SetCommand {
    key: String,
    value: String,
}

impl View for SetCommand {
    type V = (Seq<char>, Seq<char>);

    closed spec fn view(&self) -> (Seq<char>, Seq<char>) {
        (self.key@, self.value@)
    }
}

/// The key and value that the arguments of `SET` give: exactly two bulk strings.
pub open spec fn set_arguments_spec(args: Seq<RespValue>) -> Result<
    (Seq<char>, Seq<char>),
    CommandErrorView,
> {
    if args.len() != 2 {
        Err(CommandErrorView::InvalidArguments("ERR wrong number of arguments for 'set' command"@))
    } else {
        match args[0] {
            RespValue::BulkString(key) => match args[1] {
                RespValue::BulkString(value) => Ok((key, value)),
                _ => Err(CommandErrorView::InvalidArguments("ERR SET value must be a bulk string"@)),
            },
            _ => Err(CommandErrorView::InvalidArguments("ERR SET key must be a bulk string"@)),
        }
    }
}

/// `SET key value` on `m`: `+OK`, and `key` holds the string `value`,
/// whatever it held before.
pub open spec fn set_reply(key: Seq<char>, value: Seq<char>, m: StoreView) -> (
    RespValue,
    StoreView,
) {
    (RespValue::SimpleString("OK"@), m.insert(key, StoredValue::Text(value)))
}

impl SetCommand {
    /// Build a `SetCommand` from the arguments that followed `SET` in the
    /// command array (i.e. everything except the command name itself).
    pub fn from_arguments(arguments: Vec<RespType>) -> (r: Result<SetCommand, CommandError>)
        ensures
            match r {
                Ok(c) => set_arguments_spec(view_elements(arguments@)) == Ok::<
                    (Seq<char>, Seq<char>),
                    CommandErrorView,
                >(c@),
                Err(e) => set_arguments_spec(view_elements(arguments@)) == Err::<
                    (Seq<char>, Seq<char>),
                    CommandErrorView,
                >(e@),
            },
    {
        proof {
            lemma_view_elements(arguments@);
        }
        if arguments.len() != 2 {
            return Err(
                CommandError::InvalidArguments(
                    String::from_str("ERR wrong number of arguments for 'set' command"),
                ),
            );
        }
        let mut arguments = arguments;
        let second = arguments.pop().unwrap();
        let first = arguments.pop().unwrap();
        let key = match first {
            RespType::BulkString(key) => key,
            _ => {
                return Err(
                    CommandError::InvalidArguments(
                        String::from_str("ERR SET key must be a bulk string"),
                    ),
                );
            },
        };
        let value = match second {
            RespType::BulkString(value) => value,
            _ => {
                return Err(
                    CommandError::InvalidArguments(
                        String::from_str("ERR SET value must be a bulk string"),
                    ),
                );
            },
        };
        Ok(SetCommand { key, value })
    }

    /// Store the key/value pair and reply the way real Redis does: `+OK`.
    pub fn execute(self, store: &mut KeyValueStore) -> (r: RespType)
        ensures
            (r@, final(store)@) == set_reply(self@.0, self@.1, old(store)@),
    {
        store.set(self.key, Value::String(self.value));
        RespType::SimpleString(String::from_str("OK"))
    }
}

} // verus!
