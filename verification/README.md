# rsgit

A tiny, read-only Git web browser: it shows the repositories in a directory as
HTML pages, and lets them be cloned over plain HTTP. What it computes is a
library of verified code; the server around it only reads, writes and listens.

## Layout

- `src/` is the library, verified with Verus.
  - `text`, `numbers`: characters, lines, words, decimal and hexadecimal.
  - `sorted`: lists in the order of names.
  - `security`, `html`, `http`, `config`, `error`: what requests may hold, how
    pages and responses are written, and how the server is set up.
  - `repo`: which directories are repositories, and what is read of them.
  - `git`: refs, loose objects, packs, indexes, deltas, trees and commits.
  - `app`: which page a request asks for, the pages, the files served to a
    clone, and a connection from the bytes received to the bytes sent.
  - `porcelain`: the same pages over the output of Git's own commands, for a
    caller that runs them. The server never does.
  - `laws`: what holds of the library as a whole.
- `tests/` runs the library on repositories in memory.
- `app/` is the server: the network, the file system and the environment.

## How a connection goes

`App::receive` takes the bytes of a request and gives a `Step`. A step is either
the answer, or a question to the file system: list the root, look at a
repository, resolve a path, measure a file, read it. The server puts the question
and hands what it learns to the method that the step names, until there is an
answer. `App::respond` does all of this at once, over a `Site` that holds the
file system's side.

A repository is read into a `RepoFiles` before its pages are made, so that every
page is a function of the request and of the files.

## Configuration

| Variable | Default | Meaning |
| --- | --- | --- |
| `RSGIT_ADDR` | `127.0.0.1:8080` | Socket address of the server. |
| `RSGIT_REPO_ROOT` | `.` | Directory whose children are the repositories. |
| `RSGIT_PUBLIC_BASE` | unset | Base URL of the clone commands behind a proxy. |

## What is trusted

Four items are believed rather than proved: zlib inflation by `flate2`, and from
the standard library the strict and the lossy decoding of UTF-8 and
`String::push`. Each says in its doc comment what is claimed of it.
