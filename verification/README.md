# project-context

Durable, revision-aware project knowledge that lives in a Git repository. A Project
Context Library keeps what is known of a project under `.okf/project-context`, says
how fresh that knowledge is (`UNINITIALIZED`, `VALID`, `DIRTY` or `UNKNOWN`), which
topics a change concerns, and serves it through the `okf-provider/1` protocol.

## Layout

- `src/` is the library. Every item is verified with Verus; the contracts state what
  each function returns for every input, and the public `law_*` proof functions state
  what holds of several functions together.
- `app/` is the command line program: arguments, files, JSON, and the Git and OKF
  processes.
- `tests/` runs the library.

## Modules

| module      | what it decides                                                     |
|-------------|---------------------------------------------------------------------|
| `text`      | trimming, splitting, joining and searching texts                    |
| `order`     | the order of texts, and sets kept as ascending lists                |
| `paths`     | repository paths and prefixes                                       |
| `knowledge` | Library ids, knowledge paths and `okf://` URIs                      |
| `profile`   | profiles, impact rules and excluded paths                           |
| `git`       | what Git is asked and what its answers mean                         |
| `status`    | freshness, checkpoints and the status document                      |
| `query`     | lexical scoring and ranking                                         |
| `provider`  | catalog, list, read, query and refresh requests                     |
| `scaffold`  | the files of a new Library and its `.gitignore`                     |
| `history`   | the append-only log of checkpoints                                  |
| `mount`     | installing and mounting a Library with OKF                          |
| `layout`    | where a Library lies                                                |
| `error`     | what can go wrong, and how it is said                               |
| `outside`   | what is taken on trust from std and `serde_json`                    |

Where a decision needs answers from Git, from OKF or from files, it is a function of
what has been seen so far: it either names what is to be asked next or is done. The
program asks, hands the answer back, and repeats.
