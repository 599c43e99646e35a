# quicproxy

A proxy over QUIC, with its logic verified by Verus.

`src/` is the library. Every function states what it returns or changes, and Verus proves it:

- `config`, `bootstrap`, `cache`: settings, the order of starting and stopping, stored entries
- `dns`: messages, name servers, made-up addresses
- `proxy`: addresses, routing, counters, connections, users
- `proxy/inbound`: VMess, AnyTLS and ShadowQUIC servers
- `proxy/outbound`: ShadowQUIC and Hysteria 2 clients, selectors, WebSocket transport
- `api`: the rules behind the HTTP interfaces
- `utils`: QUIC settings, logging, notification, system proxy

What holds of several functions together is stated by proof functions whose names begin with `law_`.
What the library takes from other crates on trust stands in functions marked
`#[verifier::external_body]`, each with a comment on what it claims.

`app/` is the program around the library: sockets, files, processes and the HTTP servers.
`tests/` runs the library on concrete values.
