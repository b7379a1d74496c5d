//! The Redis `LRANGE` command: `LRANGE <key> <start> <stop>`.
use vstd::prelude::*;
use vstd::string::*;
use vstd::utf8::*;

use crate::command::{CommandError, CommandErrorView};
use crate::number::{i64_of_text, parse_i64_text};
use crate::resp::types::{lemma_view_elements, view_elements, RespType, RespValue};
use crate::storage::{range_spec, KeyValueStore, StoreView};

verus! {

/// The Redis `LRANGE` command: `LRANGE <key> <start> <stop>`.
///
/// `start`/`stop` are zero-based indices into the list, both inclusive;
/// negative indices count from the end (`-1` is the last element).
/// Out-of-range indices are clamped rather than treated as errors, and a
/// missing key behaves like an empty list - matching real Redis.
#[derive(Debug)]
pub struct LRangeCommand {
    key: String,
    start: i64,
    stop: i64,
}

impl View for LRangeCommand {
    type V = (Seq<char>, i64, i64);

    closed spec fn view(&self) -> (Seq<char>, i64, i64) {
        (self.key@, self.start, self.stop)
    }
}

/// An index argument of `LRANGE`: a bulk string that holds an `i64`.
pub open spec fn index_argument_spec(arg: RespValue) -> Result<i64, CommandErrorView> {
    match arg {
        RespValue::BulkString(text) => match i64_of_text(encode_utf8(text)) {
            Some(n) => Ok(n),
            None => Err(
                CommandErrorView::InvalidArguments("ERR value is not an integer or out of range"@),
            ),
        },
        _ => Err(
            CommandErrorView::InvalidArguments(
                "ERR LRANGE start/stop must be a bulk string integer"@,
            ),
        ),
    }
}

/// The key, start and stop that the arguments of `LRANGE` give: a bulk
/// string key and two bulk string integers.
pub open spec fn lrange_arguments_spec(args: Seq<RespValue>) -> Result<
    (Seq<char>, i64, i64),
    CommandErrorView,
> {
    if args.len() != 3 {
        Err(
            CommandErrorView::InvalidArguments(
                "ERR wrong number of arguments for 'lrange' command"@,
            ),
        )
    } else {
        match args[0] {
            RespValue::BulkString(key) => match index_argument_spec(args[1]) {
                Ok(start) => match index_argument_spec(args[2]) {
                    Ok(stop) => Ok((key, start, stop)),
                    Err(e) => Err(e),
                },
                Err(e) => Err(e),
            },
            _ => Err(CommandErrorView::InvalidArguments("ERR LRANGE key must be a bulk string"@)),
        }
    }
}

/// The reply to `LRANGE key start stop` on `m`: the selected elements as an
/// array of bulk strings, or `WRONGTYPE` where `key` holds a string.
pub open spec fn lrange_reply(key: Seq<char>, start: i64, stop: i64, m: StoreView) -> RespValue {
    match range_spec(m, key, start as int, stop as int) {
        Ok(items) => RespValue::Array(items.map_values(|t: Seq<char>| RespValue::BulkString(t))),
        Err(e) => RespValue::SimpleError(e.spec_message()),
    }
}

impl LRangeCommand {
    /// Build an `LRangeCommand` from the arguments that followed `LRANGE` in
    /// the command array (i.e. everything except the command name itself).
    pub fn from_arguments(arguments: Vec<RespType>) -> (r: Result<LRangeCommand, CommandError>)
        ensures
            match r {
                Ok(c) => lrange_arguments_spec(view_elements(arguments@)) == Ok::<
                    (Seq<char>, i64, i64),
                    CommandErrorView,
                >(c@),
                Err(e) => lrange_arguments_spec(view_elements(arguments@)) == Err::<
                    (Seq<char>, i64, i64),
                    CommandErrorView,
                >(e@),
            },
    {
        proof {
            lemma_view_elements(arguments@);
        }
        if arguments.len() != 3 {
            return Err(
                CommandError::InvalidArguments(
                    String::from_str("ERR wrong number of arguments for 'lrange' command"),
                ),
            );
        }
        let key = match &arguments[0] {
            RespType::BulkString(key) => key.clone(),
            _ => {
                return Err(
                    CommandError::InvalidArguments(
                        String::from_str("ERR LRANGE key must be a bulk string"),
                    ),
                );
            },
        };
        let start = match parse_index_argument(&arguments[1]) {
            Ok(n) => n,
            Err(e) => return Err(e),
        };
        let stop = match parse_index_argument(&arguments[2]) {
            Ok(n) => n,
            Err(e) => return Err(e),
        };
        Ok(LRangeCommand { key, start, stop })
    }

    /// Look up the range and reply with it as an array of bulk strings.
    pub fn execute(self, store: &KeyValueStore) -> (r: RespType)
        ensures
            r@ == lrange_reply(self@.0, self@.1, self@.2, store@),
    {
        match store.range(self.key.as_str(), self.start, self.stop) {
            Ok(values) => {
                let mut elements: Vec<RespType> = Vec::new();
                let mut i: usize = 0;
                while i < values.len()
                    invariant
                        i <= values.len(),
                        view_elements(elements@) == values.deep_view().take(i as int).map_values(
                            |t: Seq<char>| RespValue::BulkString(t),
                        ),
                    decreases values.len() - i,
                {
                    let ghost prev = elements@;
                    let element = RespType::BulkString(values[i].clone());
                    elements.push(element);
                    proof {
                        crate::resp::types::lemma_view_elements_push(prev, element);
                        assert(values.deep_view().take(i + 1).map_values(
                            |t: Seq<char>| RespValue::BulkString(t),
                        ) =~= values.deep_view().take(i as int).map_values(
                            |t: Seq<char>| RespValue::BulkString(t),
                        ).push(element@));
                    }
                    i = i + 1;
                }
                proof {
                    assert(values.deep_view().take(i as int) =~= values.deep_view());
                }
                RespType::Array(elements)
            },
            Err(error) => RespType::SimpleError(error.message()),
        }
    }
}

/// Parses an `LRANGE` `start`/`stop` argument: a bulk string holding an `i64`.
fn parse_index_argument(argument: &RespType) -> (r: Result<i64, CommandError>)
    ensures
        match r {
            Ok(n) => index_argument_spec(argument@) == Ok::<i64, CommandErrorView>(n),
            Err(e) => index_argument_spec(argument@) == Err::<i64, CommandErrorView>(e@),
        },
{
    match argument {
        RespType::BulkString(text) => match parse_i64_text(text.as_str().as_bytes()) {
            Some(n) => Ok(n),
            None => Err(
                CommandError::InvalidArguments(
                    String::from_str("ERR value is not an integer or out of range"),
                ),
            ),
        },
        _ => Err(
            CommandError::InvalidArguments(
                String::from_str("ERR LRANGE start/stop must be a bulk string integer"),
            ),
        ),
    }
}

} // verus!
