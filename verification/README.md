# research-ingest

Local-first research ingest and knowledge routing for an Obsidian vault, driven by the session of
the Grok CLI. The library is written in Verus: every function of it states what it returns, and
Verus proves that it does.

1. Something is sent: a page, a selection, a PDF, a file. It lands in `raw/incoming/` of the vault.
2. It becomes a job. Its text is extracted, and content that was seen before is skipped.
3. Grok says which project it belongs to and writes a note; where Grok is offline or not to be
   used, the note is made without it.
4. The note lands in `wiki/projects/<slug>/`, the indexes list the project, and the source moves to
   `raw/processed/`.

Grok is run by the session that is logged in. The variable `XAI_API_KEY` is taken out of its
environment, so nothing is billed per token.

## Layout

- `src/` decides and computes; it opens no file and runs no program.
  - text: `text`, `split`, `search`, `bytes`, `numbers`, `order`, `json`
  - names and times: `paths`, `slug`, `ids`, `clock`, `hash`, `files`
  - settings and tools: `config`, `tools`, `command`
  - jobs: `job`, `queue`, `process`, `watch`
  - content: `extract`, `media`, `grok`, `notes`, `vault`
  - sending: `incoming`, `form`, `pages`, `http`, `drop_server`, `native`
  - the rest: `mcp`, `daemon`, `report`
- `app/` holds the programs `research-ingest`, `research-send`, `research-mcp` and
  `research-zotero`. It reads and writes files, runs programs and speaks to the network, and hands
  what it saw to the library.
- `tests/` runs the library on concrete values.

What a job goes through is a machine in `process`: `Pipeline::step` takes what was read, and tells
what to write and what to read next.

## What is proved

Public functions have exact contracts over spec functions on sequences of characters or bytes.
Where a result rests on the clock, on chance or on the directories of the machine, the contract says
what holds of every outcome, and a function beside it that takes the time, the identifier or the
directory as an argument has the exact one. Public proof functions state what holds of several functions together, among them:

- content that was not seen becomes a note, and no content is worked off twice (`process`)
- a hash, or any text without line ends, counts as seen exactly if it was recorded (`queue`)
- the queue lists one job for each identifier, the one that was stored last (`queue`)
- laying out a vault and setting up a project keep what exists, and doing either again changes
  nothing (`vault`)
- a note lies in the directory of its project, and that in the vault, whatever it is called
  (`process`, `vault`)
- listing a project or a source twice is listing it once (`vault`, `notes`)
- a form, a native message, a shell word, a YAML string and a bookmark are read back as they were
  written (`form`, `native`, `tools`, `notes`, `pages`)
- a file of the vault that a tool reads or writes lies in the vault, and a note that was written is
  read back (`mcp`)

## What is taken on trust

A few functions are calls into other crates or the standard library whose contracts are believed:
`String::push`, `String::from_utf8_lossy` and `str::from_utf8`; `sha2` and `hex`; `chrono`; `uuid`;
`regex` with one fixed pattern; `directories`; `serde_json` for strings. Each carries a doc comment
that says what is claimed of it.
