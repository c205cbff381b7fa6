# vpngate2socks

A Linux-first local SOCKS5 console that relays traffic through VPN Gate
nodes reached over an upstream SOCKS5 proxy, with one network namespace per
active connection and per quality test, and a fail-closed exit.

## Layout

- `src/` — the verified library (Verus). It holds every rule of the service:
  the VPN Gate CSV reader and the OpenVPN profile allowlist, the SOCKS5 and
  DNS wire formats, configuration checks, the helper protocol, worker
  capacity and address pools, the node list order and pages, cookie
  sessions and CSRF checks, automatic testing and automatic connection
  policies, and the validation of stored records.
- `tests/` — tests of the library on concrete values.
- `app/` — the program around the library: command line, environment,
  sockets, processes, HTTP, SQLite and the async tasks that connect them.

## Checking

The library is checked with Verus; `tests/` runs with the outside crates
linked.
