# mnemosyne

Long-term memory for conversational agents. The server keeps facts about people
and how they change, the relationships between agents and users, and a graph of
what documents tell, and offers all of it as tools over the Model Context
Protocol.

- `src/` is the library, verified with Verus: the protocol (requests, tool
  registry, transports' framing, sessions), the tools' requests and answers, the
  persona modules, relationships, prompts and observations. Every public function
  states what it returns; the laws that relate several of them are the public
  proof functions whose names begin with `law_`.
- `app/` is the program: command line, standard input and output, HTTP, JSON
  text, stores and embedding vectors. It performs what the library decides.
- `tests/` runs the library.

What the library takes on trust from outside stands in `src/automaton.rs` (the
`aho-corasick` crate) and, from the standard library, in `src/clock.rs`,
`src/text.rs`, `src/mcp/transport.rs` and `src/mcp/graph_search_tool.rs`.
