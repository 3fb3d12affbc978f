# gitlab-mr-lsp

A language server that brings a GitLab merge request's review into the editor: comments as
diagnostics, hovers and hints, changed files as workspace symbols, and commands to comment, reply,
resolve, view a diff and approve.

## Layout

`src/` is a library, verified with Verus: what the server decides and computes. Each function's
contract says what it returns over mathematical models (text is a `Seq<char>`, a type with strings
or lists in it has a `...Model`), and the proof functions named `law_...` at the end of a module say
what holds across functions.

| module | what it holds |
| --- | --- |
| `text`, `bytes`, `number` | searching, cutting, trimming; lengths and cuts in UTF-8; decimals |
| `paths` | joining and stripping paths, file URIs |
| `file_map` | a map keyed by path that holds each path once |
| `config` | where each setting comes from; the token in `glab`'s output |
| `git` | what git is asked and what its answers tell; remotes |
| `gitlab::types` | the values of GitLab's API |
| `gitlab::diff` | line maps of unified diffs; positions of notes |
| `gitlab::client` | requests, pages, responses |
| `ignore` | files that match a glob pattern |
| `backend` | the state, and what it derives |
| `convert` | diagnostics, symbols, threads, hints |
| `refresh` | a round of bringing the state up to date, and what the editor is told |
| `commands` | the editor's commands |
| `editor` | answers to the editor's requests |
| `message` | messages to the user |

`app/` is the program around it: the LSP connection, HTTP, files, processes, and the serialised form
of the values.

## What is trusted

The library calls out in nine places, each with a contract that is believed and not proved:
`glob::Pattern` (`ignore`), `url::Url` from and to file paths and the parts of a URL, joining,
stripping and comparing `std::path::Path`s (`paths`), `str::to_lowercase` (`convert`) and
`String::push` (`text`). The doc comment of each says what is claimed.

Where a value would make a computation go wrong (a diff whose line numbers do not fit in 32 bits, a
comment on a line number zero, a text to be cut inside a character), the function requires that it
does not, and a function beside it tests that.
