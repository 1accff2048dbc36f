# chainsaw

The supervisor of a chainsaw run, as a library verified with Verus, and the ordinary Rust around
it.

A run has a lead, which cuts work into tasks; implementers, each of which takes one task; and a
commentator, which watches their commits. The supervisor starts the sessions, hands out tasks,
follows the transcripts and tells the lead what it has to know.

- `src/` holds what the supervisor decides and computes. Every function states what it returns, and
  Verus proves it. Names that begin with `law_` state what holds of several functions together.
- `app/` holds what touches the machine: the database, the files, the processes and the clock. It
  asks `src/` what to do and does it.
- `tests/` runs the library.

| Modules | What they are about |
| --- | --- |
| `text`, `number`, `json`, `moments`, `error`, `events`, `sizes` | the values that everything else is made of |
| `environment`, `settings`, `agent`, `store` | what a run is set up with, and where its files are |
| `session`, `task`, `command` | what a run consists of |
| `session_runtime`, `herdr`, `dummy` | the runtimes that drive sessions |
| `planning`, `remedies`, `acceptance`, `abort`, `calibration` | what can happen to a task |
| `prompt`, `daemon`, `transcripts`, `commentator` | how sessions are reached and followed |
| `communication`, `warnings`, `state_report` | what the lead is told |

What is believed without proof stands in `text`, `json`, `moments`, `commentator` and
`calibration`: each such item names the function it calls and says what is claimed of it.

The name of the default command line interface comes from `CHAINSAW_DEFAULT_CLI`.
