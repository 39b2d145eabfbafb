# zeroclaw-runtime

The decisions of three parts of the zeroclaw agent, verified with Verus:

- the skill hook (`agent::auto_skill`), which after a turn asks a language model
  whether to save a new skill, to update an existing one or to do nothing;
- the memory hook (`agent::dialectic`), which has durable facts about the user
  distilled from a turn and stored;
- the restart tool (`tools::daemon_restart`), which has the daemon replaced by a
  fresh invocation of itself.

Each hook is a step function from a state and an event to the next state and a
command. What it decides is verified for every course of events; calls, files
and timers are the caller's.

## Layout

- `src/` is the library. `text`, `lines`, `number` and `truncate` hold the text
  primitives. Under `agent`, `response` reads the model's reply, `frontmatter`
  reads a `SKILL.md` and its version, `naming` says which names are accepted and
  `rendering` writes what is stored and announced. `reply_format` and
  `reading_back` prove that what is written in a format is read as it is meant.
- `app/` runs the hooks and the tool: it asks the model, reads and writes files,
  stores memory entries and re-executes the daemon.
- `tests/` runs the library on concrete values.

## What is trusted

`char::is_whitespace` and `String::push` of the standard library,
`uuid::Uuid::new_v4`, and `serde_json::Value` with its `get`, `as_u64` and
`as_str`. The doc comment of each says what is assumed of it.
