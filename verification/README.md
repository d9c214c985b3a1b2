# reflex_outbound

The outbound side of a proxy: how connections and datagrams leave it, directly or through
another proxy.

* `src/` holds the rules: wire formats, handshakes, session and pool states, choices of address,
  interface and node. All of it is verified with Verus. Each function says in its contract what it
  returns; laws that relate several functions stand beside them as public proof functions.
* `app/` holds what is left: sockets, tasks, timers, and the traits of other crates. It hands plain
  values to the rules and does what they answer.
* `tests/` runs the rules on concrete values.

What the rules take on trust of other crates stands in the functions marked
`#[verifier::external_body]`, each with a comment that names the function it stands for and says
what is claimed of it. Results that take long to describe, such as those of ciphers and hashes, are
named and not described.

## Modules

| Module | Subject |
| --- | --- |
| `wire`, `text`, `words`, `encoding`, `varint` | bytes, texts and numbers |
| `net`, `ip_text`, `socks_addr` | addresses and targets |
| `crypto`, `random`, `clock` | what comes from outside |
| `tls` | records, keys, hellos, REALITY, browser hellos, ECH, choice of connection |
| `hy2`, `hysteria2`, `qpack`, `huffman`, `fragment`, `router` | Hysteria2 |
| `shadowsocks`, `shadowsocks_outbound` | Shadowsocks |
| `anytls`, `anytls_outbound` | AnyTLS |
| `socks`, `http`, `naive`, `ssh` | the other proxies |
| `direct`, `block`, `outbound`, `status` | no proxy, and what all share |
| `shadowquic`, `tailscale` | networks with a library of their own |
| `common` | groups, probes, multiplexing, interfaces, frames of VLESS |
