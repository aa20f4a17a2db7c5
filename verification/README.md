# sakamoto

A pipeline-oriented coding agent orchestrator. A task runs through a
pipeline of stages (context, code, lint, test, commit, pr); the code stage
drives an LLM in a ReAct loop with a toolset of built-in tools and MCP
servers; failed validation stages send the run back to the code stage, up
to the pipeline's CI rounds.

## Layout

- `src/` is the library, verified with Verus. It holds every decision the
  orchestrator makes, each with a contract:
  - `parser`, `grammar`, `scan`, `chars`: finding file paths, GitHub
    issues and pull requests, URLs and symbols in a task description;
  - `context`: references, entries and the context bundle, with the laws
    of combining bundles;
  - `dag`, `runner`, `react`, `stage`, `pipeline`: the pipeline graph and
    its execution levels, the runner that decides which stage runs next
    and what a stage's output makes of the run, and the ReAct loop;
  - `stages`, `tools`, `fetcher`, `mcp`, `providers`, `rules`, `config`,
    `cli`: what the built-in stages, tools, fetchers, MCP tools and LLM
    providers do with what they read, how rule files become a prompt, how
    configurations merge, and what the commands report;
  - `strmap`, `text`, `paths`, `json`, `error`, `llm`: the data the rest
    works on.
- `app/` is the `sakamoto` command: it reads files, runs processes, speaks
  HTTP and MCP, and awaits, handing each decision to the library.
- `tests/` runs the library on concrete values.
