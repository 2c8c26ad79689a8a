# subcontext

Private, version-controlled context for Git projects, as a verified library and a
thin program around it.

Subcontext attaches a hidden context repo (`.git/.subcontext/`) to a Git project.
Files of its overlay are laid over the checkout, and each branch of the project
has an overlay branch of its own, so that tasks, notes and agent configuration
follow the branches.

## Layout

- `src/` is the library, verified with [Verus](https://github.com/verus-lang/verus).
  - `world`, `backend`: everything that the library does outside itself goes
    through a `Backend`. A `World` is the account of it: the requests so far, and
    whatever answers may come. A contract says which requests are made, in which
    order, and what is done with each answer.
  - `scripted`: a backend that answers from a script.
  - `text`, `paths`, `normal`, `number`, `order`, `failure`, `horizon`: plain
    values.
  - `json`: values of `serde_json`, and what is trusted of them.
  - `git`, `overlay`, `excludes`, `tree`, `hook`, `reach`: the overlay and the git
    hooks, with what they can touch.
  - `install`, `uninstall`, `clone`, `settings`, `mcp_config`, `agent`, `skills`,
    `docs`: setting up a project.
  - `project`, `namespace`, `objects`, `global`, `lineage`, `propagate`:
    subcontexts and how they belong together.
  - `dolt`, `statement`, `board`, `board_check`, `frontmatter`: databases and
    boards.
  - `status`, `startup`, `mcp`, `cli`: reports, the MCP server and the commands.
- `tests/` runs the library: on plain values, on scripts, and on files in memory.
- `app/` is the program: command line, standard input and output, the file
  system, processes, SQLite, and the task store.

Laws that relate several functions are public proof functions, under the heading
"Laws" of their modules.

## What is trusted

Verus takes on trust what the functions marked `external_body` in `json` and
`project` say of `serde_json` and `uuid`, and what `text` says of `String::push`.
Of a backend nothing is taken on trust but that it makes the requests it is asked
for.
