# pastaless

Read-only access to a set of code base projects for MCP clients, with a verified core.

A project has a key and a root directory. Clients list directories, read files page by
page, and search for files and for text. A request looks only at files and directories
whose canonical path lies within the root directory of its project, and none may name a
path with a denied component such as `.git` or `.env`. Symbolic links are followed as
long as they stay in the project. The search program runs in the root directory, and
takes neither the pattern nor the path that a client chose for an option.

- `src/` is the library. It decides what a request may look at and what it is answered.
  It does no I/O: a request is a `Session`, which names one `Effect` at a time and
  advances with the `Reply` to it. Paths are byte strings as on Unix.
  - `path`, `access`: components, denied names, which path a request reaches
  - `read`, `listing`, `search`: what is made of a file, a directory, a search
  - `session`, `server`: requests under way, and the tools that start them
  - `hosts`, `projects`: settings
  - `text`, `encoding`, `order`: characters, UTF-8, sorting
  - `laws`, `path_laws`: what holds of whole requests, and of paths
- `app/` is the server program: configuration, HTTP, files and the search program `rg`.
- `tests/` runs the library.

The server reads its configuration from the file that `PASTALESS_CONFIG` names
(`/app/config.toml` by default), listens on port 6967, answers `OK` at `/health` and
serves MCP at `/mcp`. `PASTALESS_ALLOWED_HOSTS` holds the allowed hosts, with commas
between them.

```toml
[projects.game]
root = "/workspace/game"
```
