# rustyhook

Event-driven automation: handlers watch a directory, serve a webhook, poll an
SQS queue or follow a cron schedule, run a shell command when something
happens, and may forward events to other handlers by name.

## Layout

- `src/` is the library, written in Verus. It holds the decisions the program
  makes and states each of them in a contract:
  - `config`: the configuration types and `validate_config` (unique names,
    known forwarding targets, no self-forwarding, no forwarding cycle);
    `forward_graph` finds cycles with a depth-first search.
  - `command_executor`: how a command is started, how an attempt ends, and
    the retry loop with exponential backoff as a state machine.
  - `event`, `event_time`, `string_map`: events with their key-value data.
  - `event_bus`: named channels between handlers.
  - `handlers`: the webhook gate (health path, path, rate limit, auth
    token), the token bucket, the filesystem debouncer with its include and
    exclude patterns, the cron schedule and wait, and the SQS message
    disposition.
  - `glob`: the glob patterns that choose which watched paths count.
  - `launch`: which handlers start, and with what.
- `app/` is the program around it: command line, YAML and JSON, process
  spawning, HTTP, file watching, SQS and the async tasks.
- `tests/` runs the library on concrete values.

The contracts and the proof functions named `lemma_*` are checked by Verus.
