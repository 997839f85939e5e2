# mcstatus

Query Minecraft servers for their status: the Java Edition (1.7+) server list
ping, the legacy (pre-1.7) ping, the Bedrock Edition unconnected ping and the
GS4 Query protocol.

- `src/` is the library, written in Verus: the wire formats (varints, two's
  complement, length-prefixed strings), the packets each protocol sends, the
  parsers of what servers answer, the response models, MOTD parsing
  (legacy `§`/`&` codes and JSON chat components), its simplification and its
  plain/section-sign/HTML/ANSI renderings, address parsing, and the decisions
  of retrying and SRV lookup. Each function carries a contract that Verus
  proves; the `lemma_*` proof functions state properties across functions,
  such as reading back what was written.
- `app/` is the command-line program: sockets (tokio), DNS (hickory-resolver),
  JSON text and serde, timing, and the `clap` interface.
- `tests/` runs the library on concrete inputs.
