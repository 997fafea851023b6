# AsheraFlow (`ash`)

A small version-control system with sprints and tasks, written in Verus.
The library in `src/` holds its logic with contracts proved by Verus; the
program in `app/` reads and writes the repository and the terminal around it.

## Layout

- `src/cli` — the command line: commands and their options.
- `src/vcs` — the repository model:
  - `database` — objects (blobs, trees, commits), their bytes and ids,
    trees built from index entries, tree comparisons, object checks;
  - `index` — the staging area and its file format;
  - `diff` — shortest edit scripts between line lists and their unified text;
  - `merge` — merge inputs, the merge-base search, three-way resolution;
  - `repository` — moving the working tree from one tree to another;
  - `sprint`, `branch_metadata` — sprints, tasks, task records and their
    stored metadata;
  - `refs`, `workspace`, `inspector`, `editor`, `write_commit`.
- `src/commands` — the decisions of each command (`add`, `commit`, `status`,
  `diff`, `branch`, `checkout`, `merge`, `rm`, `reset`, `revert`, the sprint
  and task commands).
- Small verified helpers: `text`, `numeral`, `order`, `keyed`, `paths`,
  `bytes`, `digest`, `compression`, `clock`, `stdtext`.
- `tests/` — tests run against the compiled library.
- `app/` — `main`, file access, and the loops that feed the library's state
  machines with what they ask for.

## Some laws the library proves

- A diff script keeps as many lines as a longest common subsequence, and no
  edit script keeps more (`diff_lines`, `lemma_edit_script_kept`).
- The merge-base search, answered truthfully, returns best common ancestors
  (`lemma_bases_are_best`).
- Objects, trees, index entries, hex, task records and sprint metadata read
  back as written; a stored blob loads back, and loads again from the cache
  (`lemma_load_after_store`); sprint metadata reads back through its
  reference (`lemma_metadata_read_after_write`).
- The octal text of the file modes reads back as the mode.
