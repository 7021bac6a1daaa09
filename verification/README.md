# mc-gateway

A Minecraft gateway whose decisions are verified with Verus.

On a hosting node it puts the owner's line into the MOTD of every server on a
port range and is invisible otherwise. At the edge of a network it is one public
port in front of many backends, routed by the hostname in the handshake.

- `src/` is the library: the wire protocol, PROXY headers, chat text, the
  configuration and its validation, routing and balancing, health, limits, the
  scrape page, and two state machines (`gateway::connection`,
  `node::connection`) that decide what happens to each connection. Every
  verified function has a contract; the laws that span several functions stand
  as public proof functions beside them.
- `tests/` runs the library on concrete values.
- `app/` is the program around it: sockets, files, signals, logging, and the
  YAML form of the configuration. `mc-gateway node` intercepts, `mc-gateway edge`
  routes.

What the library takes on trust from other crates is declared next to its use:
`serde_json` in `json`, `ipnet` in `config::net`, `proxy_header` in
`forwarding::inbound`, `dashmap` and `governor` in `gateway::limits`, `base64` in
`gateway::motd`, and a few functions of `std` in `text` and `metrics::exporter`.
