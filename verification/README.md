# Iris

The verified core of a network-traffic analysis framework. It analyzes five-tuple-defined
connections, including reassembled payloads and parsed application-layer sessions, from an
in-network vantage point. Applications subscribe to data types with a filter and a callback.

The library under `src/` is written in Verus. Every function in it is proved against its
contract, except the small wrappers around other crates, whose contracts are trusted and say
so.

- `conntrack`: frames, connections, TCP stream reassembly, state transitions, the connection
  table and its timer wheel
- `protocols`: parsers for CAPWAP, IKE, QUIC, SSH, TLS and WireGuard
- `datatypes`: per-connection measurements, heuristics, anonymization
- `filter`: predicates and patterns, hardware rules, rules that drop a connection
- `compiler`: from annotated callbacks, filters and data types to generated filter code
- `subscription`, `stats`, `runtime`: callbacks, packet accounting, replay of captures

`app/` holds what stands around it: accounting per thread, serialized records, captures,
devices, and tokens.
