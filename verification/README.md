# samskara

The logic of Samskara, the pure datalog agent, as a Verus library: Verus
verifies every function in `src/`, and each public function states in its
contract what it returns.

- `src/text.rs`: the text operations (lines, trimming, splitting, escaping,
  decimal numbers) with their mathematical meaning.
- `src/jj_mirror.rs`: commit types, parsing of `jj log` and `jj diff --git`
  output, and the scripts that store commits, diffs and the commit vocabulary.
- `src/mcp.rs`, `src/rpc.rs`: the thought tools of the stdio and binary
  interfaces: their parameters, scripts and replies.
- `src/vcs.rs`, `src/json.rs`, `src/boot.rs`: versioned relations, CozoScript
  literals, and reading `::columns` / `::relations` answers during genesis.
- `src/digest.rs`: BLAKE3 title hashes in hexadecimal.
- `src/editor.rs`: commit message refinement for the editor bridge.
- `src/clone_manager.rs`: the sandbox clone interface.

`app/` holds the program around the library: the command line, the database,
`jj` processes, and the MCP and capnp servers.
