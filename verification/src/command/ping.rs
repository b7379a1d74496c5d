//! The Redis `PING` command: `PING` or `PING <message>`.
use vstd::prelude::*;
use vstd::string::*;

use crate::command::{CommandError, CommandErrorView};
use crate::resp::types::{lemma_view_elements, view_elements, RespType, RespValue};

verus! {

/// The Redis `PING` command: `PING` or `PING <message>`.
///
/// With no message it replies `+PONG`; with one, it echoes the message back
/// as a bulk string instead.
#[derive(Debug)]
pub struct PingCommand {
    message: Option<String>,
}

impl View for PingCommand {
    type V = Option<Seq<char>>;

    closed spec fn view(&self) -> Option<Seq<char>> {
        match self.message {
            Some(m) => Some(m@),
            None => None,
        }
    }
}

/// The message that the arguments of `PING` give: none, or one bulk string.
pub open spec fn ping_arguments_spec(args: Seq<RespValue>) -> Result<
    Option<Seq<char>>,
    CommandErrorView,
> {
    if args.len() == 0 {
        Ok(None)
    } else {
        match args[0] {
            RespValue::BulkString(message) => if args.len() == 1 {
                Ok(Some(message))
            } else {
                Err(
                    CommandErrorView::InvalidArguments(
                        "ERR wrong number of arguments for 'ping' command"@,
                    ),
                )
            },
            _ => Err(CommandErrorView::InvalidArguments("ERR PING message must be a bulk string"@)),
        }
    }
}

/// The reply to `PING`: `+PONG`, or the message as a bulk string.
pub open spec fn ping_reply(message: Option<Seq<char>>) -> RespValue {
    match message {
        Some(m) => RespValue::BulkString(m),
        None => RespValue::SimpleString("PONG"@),
    }
}

impl PingCommand {
    /// Build a `PingCommand` from the arguments that followed `PING` in the
    /// command array (i.e. everything except the command name itself).
    pub fn from_arguments(arguments: Vec<RespType>) -> (r: Result<PingCommand, CommandError>)
        ensures
            match r {
                Ok(c) => ping_arguments_spec(view_elements(arguments@)) == Ok::<
                    Option<Seq<char>>,
                    CommandErrorView,
                >(c@),
                Err(e) => ping_arguments_spec(view_elements(arguments@)) == Err::<
                    Option<Seq<char>>,
                    CommandErrorView,
                >(e@),
            },
    {
        proof {
            lemma_view_elements(arguments@);
        }
        let mut arguments = arguments;
        if arguments.len() == 0 {
            return Ok(PingCommand { message: None });
        }
        let first = arguments.remove(0);
        let message = match first {
            RespType::BulkString(message) => message,
            _ => {
                return Err(
                    CommandError::InvalidArguments(
                        String::from_str("ERR PING message must be a bulk string"),
                    ),
                );
            },
        };
        if arguments.len() > 0 {
            return Err(
                CommandError::InvalidArguments(
                    String::from_str("ERR wrong number of arguments for 'ping' command"),
                ),
            );
        }
        Ok(PingCommand { message: Some(message) })
    }

    /// Produce the RESP reply for this `PING`.
    pub fn execute(self) -> (r: RespType)
        ensures
            r@ == ping_reply(self@),
    {
        match self.message {
            Some(message) => RespType::BulkString(message),
            None => RespType::SimpleString(String::from_str("PONG")),
        }
    }
}

} // verus!
