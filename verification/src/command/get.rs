//! The Redis `GET` command: `GET <key>`.
use vstd::prelude::*;
use vstd::string::*;

use crate::command::{CommandError, CommandErrorView};
use crate::resp::types::{lemma_view_elements, view_elements, RespType, RespValue};
use crate::storage::{lookup, KeyValueStore, StorageError, StoreView, StoredValue, Value};

verus! {

/// The Redis `GET` command: `GET <key>`.
#[derive(Debug)]
pub struct GetCommand {
    key: String,
}

impl View for GetCommand {
    type V = Seq<char>;

    closed spec fn view(&self) -> Seq<char> {
        self.key@
    }
}

/// The key that the arguments of `GET` give: exactly one bulk string.
pub open spec fn get_arguments_spec(args: Seq<RespValue>) -> Result<Seq<char>, CommandErrorView> {
    if args.len() != 1 {
        Err(CommandErrorView::InvalidArguments("ERR wrong number of arguments for 'get' command"@))
    } else {
        match args[0] {
            RespValue::BulkString(key) => Ok(key),
            _ => Err(CommandErrorView::InvalidArguments("ERR GET key must be a bulk string"@)),
        }
    }
}

/// The reply to `GET key` on `m`: the string `key` holds, a null bulk string
/// where it holds nothing, or `WRONGTYPE` where it holds a list.
pub open spec fn get_reply(key: Seq<char>, m: StoreView) -> RespValue {
    match lookup(m, key) {
        Some(StoredValue::Text(text)) => RespValue::BulkString(text),
        Some(StoredValue::List(_)) => RespValue::SimpleError(
            StorageError::WrongType.spec_message(),
        ),
        None => RespValue::NullBulkString,
    }
}

impl GetCommand {
    /// Build a `GetCommand` from the arguments that followed `GET` in the
    /// command array (i.e. everything except the command name itself).
    pub fn from_arguments(arguments: Vec<RespType>) -> (r: Result<GetCommand, CommandError>)
        ensures
            match r {
                Ok(c) => get_arguments_spec(view_elements(arguments@)) == Ok::<
                    Seq<char>,
                    CommandErrorView,
                >(c@),
                Err(e) => get_arguments_spec(view_elements(arguments@)) == Err::<
                    Seq<char>,
                    CommandErrorView,
                >(e@),
            },
    {
        proof {
            lemma_view_elements(arguments@);
        }
        if arguments.len() != 1 {
            return Err(
                CommandError::InvalidArguments(
                    String::from_str("ERR wrong number of arguments for 'get' command"),
                ),
            );
        }
        let mut arguments = arguments;
        let key = match arguments.pop().unwrap() {
            RespType::BulkString(key) => key,
            _ => {
                return Err(
                    CommandError::InvalidArguments(
                        String::from_str("ERR GET key must be a bulk string"),
                    ),
                );
            },
        };
        Ok(GetCommand { key })
    }

    /// Look the key up and reply with its value, or a null bulk string if
    /// the key isn't set.
    pub fn execute(self, store: &KeyValueStore) -> (r: RespType)
        ensures
            r@ == get_reply(self@, store@),
    {
        match store.get(self.key.as_str()) {
            Some(Value::String(text)) => RespType::BulkString(text),
            Some(Value::List(_)) => RespType::SimpleError(StorageError::WrongType.message()),
            None => RespType::NullBulkString,
        }
    }
}

} // verus!
