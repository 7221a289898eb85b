# BlastDNS

Bulk DNS lookups in parallel with many resolvers. The decisions of the client are a
library that is verified with [Verus](https://github.com/verus-lang/verus), but for the few
calls into outside code that the last section names; the sockets, timers and tasks around
it are an ordinary program.

```
$ blastdns hosts.txt --rdtype A --resolvers resolvers.txt | jq
$ cat hosts.txt | blastdns --rdtype A --resolvers resolvers.txt
```

## Layout

- `src/` is the verified library. Each function says in its contract what it returns, and
  what holds of the library as a whole is stated in the proof functions named `law_*`.
- `tests/` runs the library on concrete values, with the outside crates linked.
- `app/` is the program: it opens sockets, sleeps, spawns tasks and prints, and asks the
  library what to do next.

## Units

Times are nanoseconds since an epoch of the caller's choice. Rates are billionths of a
query per second (`NanoQps`), so that a rate and the spacing in nanoseconds that it asks
for multiply to 10^18. The program converts from and to floating point.

## What is taken on trust

The proofs rest on the contracts of a few outside functions: the permit counting of
`tokio::sync::Semaphore`, the parsing of names, addresses and record types in hickory, its
printing of IPv6 addresses, the kind of a hickory error, and a handful of functions of the
standard library. Each stands behind an item whose comment says what is claimed of it.
