//! Commands: how a RESP array names a command and its arguments, and what
//! each command replies and does to the store.

pub mod get;
pub mod laws;
pub mod lrange;
pub mod ping;
pub mod push;
pub mod set;

use vstd::prelude::*;
use vstd::std_specs::convert::FromSpecImpl;
use vstd::string::*;

use crate::command::get::{get_arguments_spec, get_reply, GetCommand};
use crate::command::lrange::{lrange_arguments_spec, lrange_reply, LRangeCommand};
use crate::command::ping::{ping_arguments_spec, ping_reply, PingCommand};
use crate::command::push::{push_arguments_spec, push_reply, LPushCommand, RPushCommand};
use crate::command::set::{set_arguments_spec, set_reply, SetCommand};
use crate::resp::types::{lemma_view_elements, view_elements, RespType, RespValue};
use crate::storage::{KeyValueStore, StoreView};
use crate::text::{concat3, lowercase, to_lowercase};

verus! {

/// A parsed, ready-to-run Redis command.
///
/// Every RESP `Array` the server receives from a client is expected to be a
/// command: its first element names the command, the rest are its arguments.
#[derive(Debug)]
pub enum Command {
    Ping(PingCommand),
    SetKey(SetCommand),
    Get(GetCommand),
    LPush(LPushCommand),
    RPush(RPushCommand),
    LRange(LRangeCommand),
}

/// What a command is: its name and the values of its arguments.
pub enum CommandSpec {
    Ping(Option<Seq<char>>),
    SetKey(Seq<char>, Seq<char>),
    Get(Seq<char>),
    LPush(Seq<char>, Seq<Seq<char>>),
    RPush(Seq<char>, Seq<Seq<char>>),
    LRange(Seq<char>, i64, i64),
}

impl View for Command {
    type V = CommandSpec;

    open spec fn view(&self) -> CommandSpec {
        match self {
            Command::Ping(c) => CommandSpec::Ping(c@),
            Command::SetKey(c) => CommandSpec::SetKey(c@.0, c@.1),
            Command::Get(c) => CommandSpec::Get(c@),
            Command::LPush(c) => CommandSpec::LPush(c@.0, c@.1),
            Command::RPush(c) => CommandSpec::RPush(c@.0, c@.1),
            Command::LRange(c) => CommandSpec::LRange(c@.0, c@.1, c@.2),
        }
    }
}

/// Represents errors that can occur while turning a RESP array into a `Command`.
#[derive(Debug, PartialEq, Eq)]
pub enum CommandError {
    /// The array wasn't shaped like a valid command (e.g. empty, or the
    /// command name wasn't a bulk string).
    InvalidCommandFormat(String),
    /// The command name doesn't match any command this server implements.
    UnknownCommand(String),
    /// A recognized command was called with the wrong number or type of arguments.
    InvalidArguments(String),
}

/// The mathematical content of a `CommandError`: its kind and its message.
pub enum CommandErrorView {
    InvalidCommandFormat(Seq<char>),
    UnknownCommand(Seq<char>),
    InvalidArguments(Seq<char>),
}

impl View for CommandError {
    type V = CommandErrorView;

    open spec fn view(&self) -> CommandErrorView {
        match self {
            CommandError::InvalidCommandFormat(m) => CommandErrorView::InvalidCommandFormat(m@),
            CommandError::UnknownCommand(m) => CommandErrorView::UnknownCommand(m@),
            CommandError::InvalidArguments(m) => CommandErrorView::InvalidArguments(m@),
        }
    }
}

impl CommandErrorView {
    /// The message the error carries.
    pub open spec fn message(self) -> Seq<char> {
        match self {
            CommandErrorView::InvalidCommandFormat(m) => m,
            CommandErrorView::UnknownCommand(m) => m,
            CommandErrorView::InvalidArguments(m) => m,
        }
    }
}

impl CommandError {
    /// The message the error carries, as a client sees it.
    pub fn message(&self) -> (r: String)
        ensures
            r@ == self@.message(),
    {
        match self {
            CommandError::InvalidCommandFormat(message) => message.clone(),
            CommandError::UnknownCommand(message) => message.clone(),
            CommandError::InvalidArguments(message) => message.clone(),
        }
    }
}

/// Renders a `CommandError` the way a client sees it: as a RESP
/// SimpleError that carries its message.
impl From<CommandError> for RespType {
    fn from(error: CommandError) -> (r: RespType) {
        match error {
            CommandError::InvalidCommandFormat(message) => RespType::SimpleError(message),
            CommandError::UnknownCommand(message) => RespType::SimpleError(message),
            CommandError::InvalidArguments(message) => RespType::SimpleError(message),
        }
    }
}

impl FromSpecImpl<CommandError> for RespType {
    open spec fn obeys_from_spec() -> bool {
        true
    }

    open spec fn from_spec(error: CommandError) -> RespType {
        match error {
            CommandError::InvalidCommandFormat(message) => RespType::SimpleError(message),
            CommandError::UnknownCommand(message) => RespType::SimpleError(message),
            CommandError::InvalidArguments(message) => RespType::SimpleError(message),
        }
    }
}

/// The command that the name `name`, whose lowercase form is `lower`, and
/// the arguments `args` make. Names are matched case-insensitively.
pub open spec fn dispatch_spec(name: Seq<char>, lower: Seq<char>, args: Seq<RespValue>) -> Result<
    CommandSpec,
    CommandErrorView,
> {
    if lower == "ping"@ {
        match ping_arguments_spec(args) {
            Ok(message) => Ok(CommandSpec::Ping(message)),
            Err(e) => Err(e),
        }
    } else if lower == "set"@ {
        match set_arguments_spec(args) {
            Ok((key, value)) => Ok(CommandSpec::SetKey(key, value)),
            Err(e) => Err(e),
        }
    } else if lower == "get"@ {
        match get_arguments_spec(args) {
            Ok(key) => Ok(CommandSpec::Get(key)),
            Err(e) => Err(e),
        }
    } else if lower == "lpush"@ {
        match push_arguments_spec("lpush"@, "LPUSH"@, args) {
            Ok((key, values)) => Ok(CommandSpec::LPush(key, values)),
            Err(e) => Err(e),
        }
    } else if lower == "rpush"@ {
        match push_arguments_spec("rpush"@, "RPUSH"@, args) {
            Ok((key, values)) => Ok(CommandSpec::RPush(key, values)),
            Err(e) => Err(e),
        }
    } else if lower == "lrange"@ {
        match lrange_arguments_spec(args) {
            Ok((key, start, stop)) => Ok(CommandSpec::LRange(key, start, stop)),
            Err(e) => Err(e),
        }
    } else {
        Err(CommandErrorView::UnknownCommand("ERR unknown command '"@ + name + "'"@))
    }
}

/// The command that a RESP array with the values `elements` makes: the
/// first element names it (a bulk string, matched case-insensitively through
/// `lowercase`), the rest are its arguments.
pub open spec fn from_elements_spec(elements: Seq<RespValue>) -> Result<
    CommandSpec,
    CommandErrorView,
> {
    if elements.len() == 0 {
        Err(CommandErrorView::InvalidCommandFormat("ERR empty command array"@))
    } else {
        match elements[0] {
            RespValue::BulkString(name) => dispatch_spec(
                name,
                lowercase(name),
                elements.subrange(1, elements.len() as int),
            ),
            _ => Err(
                CommandErrorView::InvalidCommandFormat("ERR command name must be a bulk string"@),
            ),
        }
    }
}

/// What running the command `c` on a store that holds `m` replies, and what
/// the store holds afterwards.
pub open spec fn execute_spec(c: CommandSpec, m: StoreView) -> (RespValue, StoreView) {
    match c {
        CommandSpec::Ping(message) => (ping_reply(message), m),
        CommandSpec::SetKey(key, value) => set_reply(key, value, m),
        CommandSpec::Get(key) => (get_reply(key, m), m),
        CommandSpec::LPush(key, values) => push_reply(key, values, true, m),
        CommandSpec::RPush(key, values) => push_reply(key, values, false, m),
        CommandSpec::LRange(key, start, stop) => (lrange_reply(key, start, stop, m), m),
    }
}

/// The reply to a request that is no RESP array.
pub open spec fn not_a_command_message() -> Seq<char> {
    "ERR commands must be sent as a RESP array of bulk strings"@
}

/// The command that the request `request` makes, or, where it makes none,
/// the SimpleError that answers it: an array runs as a command; a malformed
/// command, or anything other than an array, is answered with an error.
pub open spec fn request_command_spec(request: RespValue) -> Result<CommandSpec, RespValue> {
    match request {
        RespValue::Array(elements) => match from_elements_spec(elements) {
            Ok(c) => Ok(c),
            Err(e) => Err(RespValue::SimpleError(e.message())),
        },
        _ => Err(RespValue::SimpleError(not_a_command_message())),
    }
}

/// What the server replies to the request `request` on a store that holds
/// `m`, and what the store holds afterwards: a request that makes no command
/// gets back its SimpleError and leaves the store as it is.
pub open spec fn reply_spec(request: RespValue, m: StoreView) -> (RespValue, StoreView) {
    match request_command_spec(request) {
        Ok(c) => execute_spec(c, m),
        Err(reply) => (reply, m),
    }
}

/// Running `c` may change the store: it is a `SET`, `LPUSH` or `RPUSH`.
pub open spec fn writes_store_spec(c: CommandSpec) -> bool {
    c is SetKey || c is LPush || c is RPush
}

/// Whether the text `name` is `expected`.
fn name_is(name: &String, expected: &str) -> (r: bool)
    ensures
        r == (name@ == expected@),
{
    let expected = String::from_str(expected);
    name.eq(&expected)
}

impl Command {
    /// Interpret a decoded RESP array as a command, dispatching on its first
    /// element (the command name) and handing the rest to that command's
    /// own argument parser.
    pub fn from_array_elements(elements: Vec<RespType>) -> (r: Result<Command, CommandError>)
        ensures
            match r {
                Ok(c) => from_elements_spec(view_elements(elements@)) == Ok::<
                    CommandSpec,
                    CommandErrorView,
                >(c@),
                Err(e) => from_elements_spec(view_elements(elements@)) == Err::<
                    CommandSpec,
                    CommandErrorView,
                >(e@),
            },
    {
        proof {
            lemma_view_elements(elements@);
        }
        let ghost all = view_elements(elements@);
        let mut elements = elements;
        if elements.len() == 0 {
            return Err(
                CommandError::InvalidCommandFormat(String::from_str("ERR empty command array")),
            );
        }
        let first = elements.remove(0);
        proof {
            lemma_view_elements(elements@);
            assert(view_elements(elements@) =~= all.subrange(1, all.len() as int));
        }
        let command_name = match first {
            RespType::BulkString(name) => name,
            _ => {
                return Err(
                    CommandError::InvalidCommandFormat(
                        String::from_str("ERR command name must be a bulk string"),
                    ),
                );
            },
        };
        let lowercase_name = to_lowercase(command_name.as_str());
        Self::from_name_and_arguments(command_name, lowercase_name.as_str(), elements)
    }

    /// The command named `command_name`, whose lowercase form is
    /// `lowercase_name`, with the arguments `arguments`.
    pub fn from_name_and_arguments(
        command_name: String,
        lowercase_name: &str,
        arguments: Vec<RespType>,
    ) -> (r: Result<Command, CommandError>)
        ensures
            match r {
                Ok(c) => dispatch_spec(command_name@, lowercase_name@, view_elements(arguments@))
                    == Ok::<CommandSpec, CommandErrorView>(c@),
                Err(e) => dispatch_spec(command_name@, lowercase_name@, view_elements(arguments@))
                    == Err::<CommandSpec, CommandErrorView>(e@),
            },
    {
        let lower = String::from_str(lowercase_name);
        if name_is(&lower, "ping") {
            match PingCommand::from_arguments(arguments) {
                Ok(c) => Ok(Command::Ping(c)),
                Err(e) => Err(e),
            }
        } else if name_is(&lower, "set") {
            match SetCommand::from_arguments(arguments) {
                Ok(c) => Ok(Command::SetKey(c)),
                Err(e) => Err(e),
            }
        } else if name_is(&lower, "get") {
            match GetCommand::from_arguments(arguments) {
                Ok(c) => Ok(Command::Get(c)),
                Err(e) => Err(e),
            }
        } else if name_is(&lower, "lpush") {
            match LPushCommand::from_arguments(arguments) {
                Ok(c) => Ok(Command::LPush(c)),
                Err(e) => Err(e),
            }
        } else if name_is(&lower, "rpush") {
            match RPushCommand::from_arguments(arguments) {
                Ok(c) => Ok(Command::RPush(c)),
                Err(e) => Err(e),
            }
        } else if name_is(&lower, "lrange") {
            match LRangeCommand::from_arguments(arguments) {
                Ok(c) => Ok(Command::LRange(c)),
                Err(e) => Err(e),
            }
        } else {
            Err(
                CommandError::UnknownCommand(
                    concat3("ERR unknown command '", command_name.as_str(), "'"),
                ),
            )
        }
    }

    /// Run the command and produce the RESP value to send back to the client.
    pub fn execute(self, store: &mut KeyValueStore) -> (r: RespType)
        ensures
            (r@, final(store)@) == execute_spec(self@, old(store)@),
    {
        match self {
            Command::Ping(ping_command) => ping_command.execute(),
            Command::SetKey(set_command) => set_command.execute(store),
            Command::Get(get_command) => get_command.execute(store),
            Command::LPush(lpush_command) => lpush_command.execute(store),
            Command::RPush(rpush_command) => rpush_command.execute(store),
            Command::LRange(lrange_command) => lrange_command.execute(store),
        }
    }

    /// Whether running the command may change the store. Commands that do
    /// not can run under a shared borrow of the store.
    pub fn writes_store(&self) -> (r: bool)
        ensures
            r == writes_store_spec(self@),
    {
        match self {
            Command::SetKey(_) | Command::LPush(_) | Command::RPush(_) => true,
            Command::Ping(_) | Command::Get(_) | Command::LRange(_) => false,
        }
    }

    /// Run a command that only reads the store (`PING`, `GET`, `LRANGE`)
    /// and produce the RESP value to send back to the client.
    pub fn execute_read_only(self, store: &KeyValueStore) -> (r: RespType)
        requires
            !writes_store_spec(self@),
        ensures
            (r@, store@) == execute_spec(self@, store@),
    {
        match self {
            Command::Ping(ping_command) => ping_command.execute(),
            Command::Get(get_command) => get_command.execute(store),
            Command::LRange(lrange_command) => lrange_command.execute(store),
            Command::SetKey(_) | Command::LPush(_) | Command::RPush(_) => {
                proof {
                    assert(false);
                }
                RespType::NullBulkString
            },
        }
    }
}

/// The command that one request from a client makes, or, where it makes
/// none, the SimpleError that answers it.
pub fn command_for(request: RespType) -> (r: Result<Command, RespType>)
    ensures
        match r {
            Ok(c) => request_command_spec(request@) == Ok::<CommandSpec, RespValue>(c@),
            Err(reply) => request_command_spec(request@) == Err::<CommandSpec, RespValue>(reply@),
        },
{
    match request {
        RespType::Array(elements) => match Command::from_array_elements(elements) {
            Ok(command) => Ok(command),
            Err(error) => Err(RespType::from(error)),
        },
        _ => Err(
            RespType::SimpleError(
                String::from_str("ERR commands must be sent as a RESP array of bulk strings"),
            ),
        ),
    }
}

/// The reply to one request from a client: an array runs as a command
/// against `store`; anything else gets back a SimpleError.
pub fn reply_to(request: RespType, store: &mut KeyValueStore) -> (r: RespType)
    ensures
        (r@, final(store)@) == reply_spec(request@, old(store)@),
{
    match command_for(request) {
        Ok(command) => command.execute(store),
        Err(reply) => reply,
    }
}

} // verus!
