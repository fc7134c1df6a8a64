# Cogent

The core of a command-line agent: a loop that lets a language model think, call
tools, look at what they did and think again, until it answers.

The decisions of the agent are a verified library. The contracts say, for every
input, what each function hands back; the laws (`law_…`) say what holds of the
functions together.

- `src/` is the library. `engine` is the loop as a machine that is told what
  happened and says what to do next; `state`, `types`, `error`, `event`,
  `provider` and `summary` are its vocabulary; `memory` keeps the window of the
  conversation within its budget; `middleware` and `retry` decide what is stopped
  and what is repeated; `openai` speaks the language of the API; `tool` and
  `builtin` declare the tools; `bash`, `file`, `http`, `skills`, `sanitize`,
  `encoding`, `validate`, `diff_preview` and `error_recovery` are their logic;
  `config`, `factory`, `render` and `repl` are the logic of the program. `text`,
  `bytes` and `json` are what the others are built on.
- `app/` is the program `cog` around it: the network, the disk, the shell, the
  terminal and the clock. It performs what the library decides.
- `tests/` run the library, together with the crates that it calls.

The library calls a few crates for what they do best: `serde_json`, `url`,
`encoding_rs`, `similar`, `strsim`, `syn`, `quote`, `proc_macro2` and `schemars`. What it takes
for granted of them stands in the contracts of the functions that make the calls.

## Use

    cog repl            a session on the terminal
    cog run "<task>"    one task
    cog tools           the tools

`OPENAI_API_KEY` has to be set for the first two. `COGENT_PROVIDER`,
`COGENT_MODEL`, `COGENT_BASE_URL`, `COGENT_MAX_ITERATIONS`,
`COGENT_MAX_CONTEXT_TOKENS`, `COGENT_OTEL_ENDPOINT`, `COGENT_AUTO_APPROVE`,
`COGENT_JAVA_CHECK`, `COGENT_BASH_TIMEOUT_SECS` and `COGENT_SKILLS_DIR` change the
defaults.
