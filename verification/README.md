# git_ai

The decision core of a tool that tracks which lines of a repository were
written by AI agents, verified with Verus:

- `notes_api` reads and writes authorship notes, in git or in a local database
  from which they are sent to a server; `fast_import` writes the stream that
  puts cached notes under a ref for display.
- `copilot_otel` turns the spans of a Copilot trace database into transcript
  events, page by page.
- `sweep_coordinator` finds the sessions of agents that need processing.

None of them touches git, a database or the file system. Each piece of work is
a state: its `request` says what is to be done outside, and `resume` takes the
answer (see `step`). The contracts of `resume` say how each state goes on after
each answer. The modules whose names end in `_laws`, and `fast_import_reading`,
state what the pieces of work come to as a whole.

`app/` does the outside part: it runs git, the databases and the file system.
`tests/` runs the library against stand-ins for them, and against a real SQLite
database in memory.
