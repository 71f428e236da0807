# tonic

A git worktree companion, with its decisions verified by Verus.

`tonic` creates, lists, finds and removes worktrees, brings ignored files into new
ones, runs hooks, and moves along stacks of branches that it infers from the commit
graph.

## Layout

- `src/` is the library. It runs nothing: a function that needs an answer of git or
  of the file system returns the question (`Stop::Ask`), and is called again once the
  answer has been added to `Facts`.
  - `text`, `path`, `template`, `porcelain`: strings, paths, placeholders, and what git
    prints.
  - `git`, `error`: questions, answers, failures.
  - `config`, `repo`: the configuration; the repository, its worktrees and its trunk.
  - `stack`, `nav`: lineages and children; `up`, `down`, `top`, `bottom`.
  - `create`, `remove`, `list`, `display`, `transfer`, `hooks`, `shell`, `report`,
    `style`: the other commands, and what they show.
  - `laws`, `stack_laws`, `path_laws`, `steady`, `lossless`: what holds of the library
    as a whole.
- `app/` is the program around it: the command line, running git and hooks, reading
  configuration files, copying files.
- `tests/` runs the library, the commands against a repository in memory.
