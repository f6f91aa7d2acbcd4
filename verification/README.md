# mhost

A hosts-file and local DNS manager, written in Verus.

- `src/hosts`: reading, checking and writing the lines of a hosts file.
- `src/apply`: merging profiles, planning a change of the hosts file, building the new
  text, checking what was written, and naming and pruning backups.
- `src/dns`: the names that rules answer for, ad blocking, the cache of answers, the DNS
  server, the proxy, and the mode in which the system uses this machine as its server.
- `src/models.rs`, `src/error.rs`: what the parts share.
- `src/text.rs`, `src/net.rs`, `src/order.rs`, `src/ident.rs`, `src/clock.rs`: texts,
  addresses, sorting, identifiers and time.

Everything in `src` is verified. Where work alternates with files, sockets, processes or
waiting, the library is a function from a state and an event to the next state and the
action to take, and `app` takes the actions. The contracts speak of texts as sequences of
characters and of tables as maps; the laws that tie several functions together are public
proof functions at the end of the modules, and `src/apply/laws.rs`.

What comes from other crates stands behind small trusted functions: identifiers
(`src/ident.rs`), time (`src/clock.rs`), the bytes of DNS messages (`src/dns/wire.rs`) and
the collection behind the cache (`src/dns/cache.rs`). So do three functions of the standard
library: `String::push` (`src/text.rs`), and the `{:?}` of a text (`src/dns/platform.rs`)
and of a duration (`src/dns/platform/privileged.rs`).
