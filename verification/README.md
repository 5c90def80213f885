# git_dashboard

A dashboard for local and SSH-hosted Git repositories: an overview of each
repository (branch, commits, contributors, size, technologies), its activity,
branches, tags, stashes and files, and a side-by-side diff viewer.

The library in `src/` is verified with Verus. The public functions state
their results in their contracts, over the views of their arguments; where a
result comes from the machine's time zone (local dates and times) the
contract states its shape and ranges only. Properties that relate several
calls stand as public proof functions (`lemma_*`).

Layout of `src/`:

- `text`, `sort`, `search`: string operations, stable sorting and searching,
  each with its specification.
- `git`, `summary`, `contributors`, `activity`, `files`, `blame`, `tech`:
  the commands the dashboard runs and the parsing of their output.
- `diff`, `tree`: unified diffs as side-by-side rows; the file tree of a diff.
- `remote`: shell quoting and the batched commands sent over SSH.
- `config`, `i18n`, `view`, `ansi`, `messages`, `session`, `analysis`,
  `repos`, `palette`, `picker`, `settings`: what the interface decides and
  shows.

Calls into `chrono`, `regex` and std functions without a Verus
specification go through small trusted wrappers whose contracts name or
state their results.

`app/` is a text front end: it runs git, reads and writes the settings, and
prints the overview of each repository.
