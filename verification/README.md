# molo

The core of an embeddable agent runtime, written and proved in Verus.

- `src/` is the library. Every executable function carries a contract over
  mathematical models: texts are sequences of characters, JSON values are trees,
  registries are sequences of name-value pairs, a conversation is a sequence of
  messages. The public proof functions whose names begin with `law_` state what
  holds across functions.
- `tests/` runs the library on concrete values, with the crates it calls linked.
- `app/` is the running side: HTTP, MCP servers, files, channels, clocks and the
  async traits. It decides nothing that the library can decide.

| Module | What it holds |
| --- | --- |
| `text`, `order`, `keyed`, `record`, `json`, `time` | characters, path order, ordered named values, records in JSON, JSON, clocks |
| `message`, `run`, `effect`, `observability` | the conversation model, runs, side effects, event records |
| `memory` | memories: unbounded, windowed by a budget, summarised |
| `provider` | requests, replies, retrying, a scripted model, the OpenAI-compatible protocol |
| `tool` | tools, their registry and the state they share |
| `skill` | skills in `SKILL.md` form, their registry and the tool that loads them |
| `mcp` | tools of MCP servers: listing, calling, governing |
| `message_channel` | what channels between agents answer |

What the library takes on trust are the calls into `serde_json`, `indexmap`,
`base64`, `tokio-util` and a few functions of `std`; each stands behind a small
function or declaration whose doc comment says what is claimed of it.
