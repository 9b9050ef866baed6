# agentmux

agentmux puts a question to another vendor's coding agent, keeps everything that agent said, and
hands it back page by page. A consultation runs as a detached child process that writes its event
stream to a file; every answer agentmux gives is rebuilt from those files.

## Layout

- `src/` — the library, in Verus. What it decides and computes is stated in `requires` and
  `ensures`, and proved:
  - `delegate`, `config`: who is consulted, with which arguments, environment and account;
  - `stream`, `transcript`: what an event stream amounts to, and how it is rendered;
  - `path`: what a path means, on Unix and on Windows;
  - `run`: ids, directories, settlement, paging, status and the life of a consultation;
  - `quota`: what each account has left;
  - `launch`: what a look at a child process means;
  - `mcp`, `cli`, `report`: what callers pass in and what they are told.
- `tests/` — what the library does on given values.
- `app/` — the binary around it: files, processes, the command line and the MCP server.

## What the library promises

A rendered transcript only ever grows at its end, so a byte offset handed out stays good. A finished
turn keeps its outcome. A checkout's own configuration chooses between the machine's accounts and
can define nothing. A delegate's environment is an allowlist. A secret of the configuration never
shows in a report. Each of these is a proof function beside the code it is about.

What the library takes from other crates — JSON pointers, TOML keys, calendar dates, random ids — it
takes through a few functions whose contracts are stated and not proved; each says so where it
stands.
