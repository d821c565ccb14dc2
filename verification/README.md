# ddns-ipv6

Keeps AAAA records in step with a rotating IPv6 prefix: the current /64 prefix is detected,
combined with the suffix of every host, and the records that are out of date are set.

- `src/` is the library, verified with Verus.
  - `addr`, `text`, `number`: addresses and their text form
  - `util`: the prefix half and the suffix half of an address
  - `config`, `error`: the configuration and what can be wrong with it
  - `prefix`: detection from DNS answers, from the addresses of an interface, and from
    Router Advertisements
  - `updater`: the Cloudflare API, RFC 2136 updates signed with TSIG, and how failures are
    tried again
  - `docker`: hosts among labelled containers
  - `cycle`: which records a cycle sets, and what is remembered of them
  - `daemon`: from a configuration to a detector and an updater
- `app/` is the daemon around it: files, sockets, HTTP, signals.
- `tests/` are the library's tests.

Each public function states what it returns. The proof functions named `law_...` state what
holds of several functions together, such as that a record that was set reads back, and that
a second cycle under the same prefix sets nothing if the hosts of one domain agree on its
address and no attempt of the first cycle failed.
