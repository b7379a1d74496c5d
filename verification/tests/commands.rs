use nimblecache::command::{command_for, reply_to, Command, CommandError};
use nimblecache::resp::types::RespType;
use nimblecache::storage::{KeyValueStore, StorageError, Value};
use std::collections::VecDeque;

fn bulk(text: &str) -> RespType {
    RespType::BulkString(text.to_string())
}

fn request(words: &[&str]) -> RespType {
    RespType::Array(words.iter().map(|w| bulk(w)).collect())
}

fn run(store: &mut KeyValueStore, words: &[&str]) -> RespType {
    reply_to(request(words), store)
}

fn error(text: &str) -> RespType {
    RespType::SimpleError(text.to_string())
}

const WRONGTYPE: &str = "WRONGTYPE Operation against a key holding the wrong kind of value";

#[test]
fn ping_replies() {
    let mut store = KeyValueStore::new();
    assert_eq!(run(&mut store, &["PING"]), RespType::SimpleString("PONG".to_string()));
    assert_eq!(run(&mut store, &["ping", "hello"]), bulk("hello"));
    assert_eq!(
        run(&mut store, &["PING", "a", "b"]),
        error("ERR wrong number of arguments for 'ping' command")
    );
    assert_eq!(
        reply_to(RespType::Array(vec![bulk("PING"), RespType::Integer(1)]), &mut store),
        error("ERR PING message must be a bulk string")
    );
}

#[test]
fn set_then_get() {
    let mut store = KeyValueStore::new();
    assert_eq!(run(&mut store, &["SET", "foo", "bar"]), RespType::SimpleString("OK".to_string()));
    assert_eq!(run(&mut store, &["GET", "foo"]), bulk("bar"));
    assert_eq!(run(&mut store, &["set", "foo", "baz"]), RespType::SimpleString("OK".to_string()));
    assert_eq!(run(&mut store, &["get", "foo"]), bulk("baz"));
    assert_eq!(run(&mut store, &["GET", "missing"]), RespType::NullBulkString);
}

#[test]
fn set_and_get_argument_errors() {
    let mut store = KeyValueStore::new();
    assert_eq!(
        run(&mut store, &["SET", "k"]),
        error("ERR wrong number of arguments for 'set' command")
    );
    assert_eq!(
        run(&mut store, &["SET", "k", "v", "EX"]),
        error("ERR wrong number of arguments for 'set' command")
    );
    assert_eq!(
        reply_to(RespType::Array(vec![bulk("SET"), RespType::Integer(1), bulk("v")]), &mut store),
        error("ERR SET key must be a bulk string")
    );
    assert_eq!(
        reply_to(RespType::Array(vec![bulk("SET"), bulk("k"), RespType::NullBulkString]), &mut store),
        error("ERR SET value must be a bulk string")
    );
    assert_eq!(run(&mut store, &["GET"]), error("ERR wrong number of arguments for 'get' command"));
    assert_eq!(
        reply_to(RespType::Array(vec![bulk("GET"), RespType::Integer(1)]), &mut store),
        error("ERR GET key must be a bulk string")
    );
    assert_eq!(run(&mut store, &["GET", "k"]), RespType::NullBulkString);
}

#[test]
fn rpush_then_lrange() {
    let mut store = KeyValueStore::new();
    assert_eq!(run(&mut store, &["RPUSH", "mylist", "a", "b", "c"]), RespType::Integer(3));
    assert_eq!(
        run(&mut store, &["LRANGE", "mylist", "0", "-1"]),
        RespType::Array(vec![bulk("a"), bulk("b"), bulk("c")])
    );
    assert_eq!(run(&mut store, &["RPUSH", "mylist", "d"]), RespType::Integer(4));
    assert_eq!(
        run(&mut store, &["LRANGE", "mylist", "-2", "-1"]),
        RespType::Array(vec![bulk("c"), bulk("d")])
    );
}

#[test]
fn lpush_puts_values_in_front() {
    let mut store = KeyValueStore::new();
    assert_eq!(run(&mut store, &["LPUSH", "l", "a", "b", "c"]), RespType::Integer(3));
    assert_eq!(
        run(&mut store, &["LRANGE", "l", "0", "-1"]),
        RespType::Array(vec![bulk("c"), bulk("b"), bulk("a")])
    );
    assert_eq!(run(&mut store, &["rpush", "l", "z"]), RespType::Integer(4));
    assert_eq!(
        run(&mut store, &["LRANGE", "l", "0", "100"]),
        RespType::Array(vec![bulk("c"), bulk("b"), bulk("a"), bulk("z")])
    );
}

#[test]
fn lrange_clamps_out_of_range_indices() {
    let mut store = KeyValueStore::new();
    run(&mut store, &["RPUSH", "l", "a", "b", "c"]);
    assert_eq!(
        run(&mut store, &["LRANGE", "l", "-100", "100"]),
        RespType::Array(vec![bulk("a"), bulk("b"), bulk("c")])
    );
    assert_eq!(run(&mut store, &["LRANGE", "l", "5", "10"]), RespType::Array(vec![]));
    assert_eq!(run(&mut store, &["LRANGE", "l", "2", "1"]), RespType::Array(vec![]));
    assert_eq!(run(&mut store, &["LRANGE", "l", "1", "1"]), RespType::Array(vec![bulk("b")]));
    assert_eq!(run(&mut store, &["LRANGE", "l", "0", "-4"]), RespType::Array(vec![]));
    assert_eq!(run(&mut store, &["LRANGE", "nothing", "0", "-1"]), RespType::Array(vec![]));
    assert_eq!(
        run(&mut store, &["LRANGE", "l", "-9223372036854775808", "9223372036854775807"]),
        RespType::Array(vec![bulk("a"), bulk("b"), bulk("c")])
    );
}

#[test]
fn lrange_argument_errors() {
    let mut store = KeyValueStore::new();
    assert_eq!(
        run(&mut store, &["LRANGE", "l", "0"]),
        error("ERR wrong number of arguments for 'lrange' command")
    );
    assert_eq!(
        run(&mut store, &["LRANGE", "l", "x", "1"]),
        error("ERR value is not an integer or out of range")
    );
    assert_eq!(
        run(&mut store, &["LRANGE", "l", "0", "99999999999999999999"]),
        error("ERR value is not an integer or out of range")
    );
    assert_eq!(
        reply_to(
            RespType::Array(vec![bulk("LRANGE"), bulk("l"), RespType::Integer(0), bulk("1")]),
            &mut store
        ),
        error("ERR LRANGE start/stop must be a bulk string integer")
    );
    assert_eq!(
        reply_to(
            RespType::Array(vec![bulk("LRANGE"), RespType::NullBulkString, bulk("0"), bulk("1")]),
            &mut store
        ),
        error("ERR LRANGE key must be a bulk string")
    );
}

#[test]
fn push_argument_errors() {
    let mut store = KeyValueStore::new();
    assert_eq!(
        run(&mut store, &["LPUSH", "l"]),
        error("ERR wrong number of arguments for 'lpush' command")
    );
    assert_eq!(
        run(&mut store, &["RPUSH"]),
        error("ERR wrong number of arguments for 'rpush' command")
    );
    assert_eq!(
        reply_to(RespType::Array(vec![bulk("RPUSH"), RespType::Integer(1), bulk("a")]), &mut store),
        error("ERR RPUSH key must be a bulk string")
    );
    assert_eq!(
        reply_to(
            RespType::Array(vec![bulk("LPUSH"), bulk("l"), bulk("a"), RespType::Integer(2)]),
            &mut store
        ),
        error("ERR LPUSH values must be bulk strings")
    );
    assert_eq!(run(&mut store, &["LRANGE", "l", "0", "-1"]), RespType::Array(vec![]));
}

#[test]
fn wrong_type_errors() {
    let mut store = KeyValueStore::new();
    run(&mut store, &["SET", "s", "text"]);
    run(&mut store, &["RPUSH", "l", "a"]);
    assert_eq!(run(&mut store, &["LPUSH", "s", "x"]), error(WRONGTYPE));
    assert_eq!(run(&mut store, &["RPUSH", "s", "x"]), error(WRONGTYPE));
    assert_eq!(run(&mut store, &["LRANGE", "s", "0", "-1"]), error(WRONGTYPE));
    assert_eq!(run(&mut store, &["GET", "l"]), error(WRONGTYPE));
    assert_eq!(run(&mut store, &["GET", "s"]), bulk("text"));
    // SET overwrites whatever a key held.
    assert_eq!(run(&mut store, &["SET", "l", "now text"]), RespType::SimpleString("OK".to_string()));
    assert_eq!(run(&mut store, &["GET", "l"]), bulk("now text"));
}

#[test]
fn malformed_requests() {
    let mut store = KeyValueStore::new();
    assert_eq!(
        reply_to(RespType::SimpleString("PING".to_string()), &mut store),
        error("ERR commands must be sent as a RESP array of bulk strings")
    );
    assert_eq!(reply_to(RespType::Array(vec![]), &mut store), error("ERR empty command array"));
    assert_eq!(
        reply_to(RespType::Array(vec![RespType::Integer(1)]), &mut store),
        error("ERR command name must be a bulk string")
    );
    assert_eq!(run(&mut store, &["FLUSHALL"]), error("ERR unknown command 'FLUSHALL'"));
    assert_eq!(run(&mut store, &["GET", "FLUSHALL"]), RespType::NullBulkString);
}

#[test]
fn command_names_are_case_insensitive() {
    let mut store = KeyValueStore::new();
    assert_eq!(run(&mut store, &["SeT", "k", "v"]), RespType::SimpleString("OK".to_string()));
    assert_eq!(run(&mut store, &["gEt", "k"]), bulk("v"));
    assert_eq!(run(&mut store, &["LpUsH", "l", "1"]), RespType::Integer(1));
    assert_eq!(run(&mut store, &["lRaNgE", "l", "0", "0"]), RespType::Array(vec![bulk("1")]));
}

#[test]
fn command_parsing_and_errors() {
    let command = Command::from_array_elements(vec![bulk("PING"), bulk("x")]).unwrap();
    let mut store = KeyValueStore::default();
    assert_eq!(command.execute(&mut store), bulk("x"));
    let error = Command::from_array_elements(vec![bulk("nope")]).unwrap_err();
    assert_eq!(error, CommandError::UnknownCommand("ERR unknown command 'nope'".to_string()));
    assert_eq!(error.message(), "ERR unknown command 'nope'");
    assert_eq!(RespType::from(error), RespType::SimpleError("ERR unknown command 'nope'".to_string()));
    let dispatched =
        Command::from_name_and_arguments("Get".to_string(), "get", vec![bulk("k")]).unwrap();
    assert_eq!(dispatched.execute(&mut store), RespType::NullBulkString);
}

#[test]
fn store_operations() {
    let mut store = KeyValueStore::new();
    assert_eq!(store.get("k"), None);
    store.set("k".to_string(), Value::String("v".to_string()));
    assert_eq!(store.get("k"), Some(Value::String("v".to_string())));
    assert_eq!(store.push_back("l".to_string(), vec!["a".to_string(), "b".to_string()]), Ok(2));
    assert_eq!(store.push_front("l".to_string(), vec!["z".to_string()]), Ok(3));
    assert_eq!(
        store.get("l"),
        Some(Value::List(VecDeque::from(vec!["z".to_string(), "a".to_string(), "b".to_string()])))
    );
    assert_eq!(store.range("l", 0, -1), Ok(vec!["z".to_string(), "a".to_string(), "b".to_string()]));
    assert_eq!(store.push_back("k".to_string(), vec!["x".to_string()]), Err(StorageError::WrongType));
    assert_eq!(store.range("k", 0, -1), Err(StorageError::WrongType));
    assert_eq!(StorageError::WrongType.message(), WRONGTYPE);
    // Pushing no values creates nothing.
    assert_eq!(store.push_back("empty".to_string(), vec![]), Ok(0));
    assert_eq!(store.get("empty"), None);
}

#[test]
fn read_only_commands_run_on_a_shared_store() {
    let mut store = KeyValueStore::new();
    run(&mut store, &["RPUSH", "l", "a", "b"]);
    let set = command_for(request(&["SET", "k", "v"])).unwrap();
    assert!(set.writes_store());
    assert!(command_for(request(&["LPUSH", "l", "x"])).unwrap().writes_store());
    let get = command_for(request(&["GET", "k"])).unwrap();
    assert!(!get.writes_store());
    assert_eq!(set.execute(&mut store), RespType::SimpleString("OK".to_string()));
    assert_eq!(get.execute_read_only(&store), bulk("v"));
    let range = command_for(request(&["LRANGE", "l", "0", "-1"])).unwrap();
    assert!(!range.writes_store());
    assert_eq!(range.execute_read_only(&store), RespType::Array(vec![bulk("a"), bulk("b")]));
    let ping = command_for(request(&["PING"])).unwrap();
    assert_eq!(ping.execute_read_only(&store), RespType::SimpleString("PONG".to_string()));
    assert_eq!(
        command_for(RespType::Integer(3)).unwrap_err(),
        error("ERR commands must be sent as a RESP array of bulk strings")
    );
    assert_eq!(
        command_for(request(&["GET"])).unwrap_err(),
        error("ERR wrong number of arguments for 'get' command")
    );
}
