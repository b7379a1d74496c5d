# nimblecache

The core of a small Redis-compatible server, verified with Verus: a RESP2
parser and encoder, a stream codec on top of them, the commands `PING`,
`SET`, `GET`, `LPUSH`, `RPUSH` and `LRANGE`, and the in-memory key-value store
they run against.

## Layout

```
src/
  lib.rs            the crate root
  number.rs         decimal text of integers: parsing and writing
  text.rs           UTF-8 decoding, case folding, message assembly
  buffer.rs         the byte buffers of the `bytes` crate, as the codec uses them
  resp.rs           RespError
  resp/types.rs     RespType, the grammar of the wire format, parser and encoder
  resp/codec.rs     RespCodec: one value at a time off a growing buffer
  resp/laws.rs      what the wire format guarantees as a whole
  storage.rs        KeyValueStore: strings and lists under string keys
  command.rs        Command, CommandError, dispatch by name, replies
  command/*.rs      the commands, and command/laws.rs, what they guarantee together
app/main.rs         the TCP server (tokio): sockets, framing, a shared store
tests/              tests on concrete values
```

The contracts speak of mathematical views: a `RespType` is viewed as a
`RespValue`, a store as a map from keys to `StoredValue`s, and a buffer as a
sequence of bytes.
