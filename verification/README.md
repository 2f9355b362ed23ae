# lifec

A runtime for engines: sequences of events, configured in runmd, that run
plugins, report their progress and can be driven from an editor. This crate
holds the runtime's logic, written in Verus and proved against its contracts;
`app/` holds what talks to files, clocks, channels and the entity world.

## Layout

- `entity`, `attributes`, `keyed`, `order`, `text`: entity handles, attribute
  graphs, keyed lists, text ordering and grouping, number and identifier parsing.
- `engine`: engine configuration (`.event`, `.once`, `.start`, ... `.repeat`), and how a
  control block becomes a sequence of events and where it continues.
- `node`, `wire`: node statuses and commands, and the frames they are sent as.
- `debugger`, `debugger_wire`: status logs and completions kept by the
  debugger, and the frames it is sent as. What is read back is what was sent
  when nothing is lost to the default limits (at most 1000 completions, logs of
  1 to 10 updates, each about its own entity) and each completion's query and
  returns have the shape that reading builds (`law_debugger_round_trip`).
- `appendix`, `section`, `event`: descriptions of entities, editable sections of
  attributes, event components.
- `controls`, `host`: the commands an event node offers, and the host editor's
  handling of runtime requests and of edits across refreshes.
- `editor`, `file_editor`, `event_editor`, `dispatch`: buttons, tasks, progress
  bars, the file and event editors, and what a dispatched block asks for.
- `cancel`, `operation`, `web`, `program`: cancel tokens over a oneshot signal,
  operations and plugin outputs, static file serving, the program's options.
- `catalog`, `node_graph`, `node_editor`: items that read their state from
  attribute values, the node graph (its nodes, links, and what following or
  dropping a link does to the nodes), and which entities have their node
  editor open.

Each module states its laws as public proof functions named `law_*`.
