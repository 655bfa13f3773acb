# projectable

A terminal project manager: a folding tree of the project's files, a preview of the
selected file, popups that confirm deletions or ask for names and commands, marks, special
commands per file pattern, and a configuration of key bindings and styles.

## Layout

- `src/` is the library, written and proved with Verus. Every public function states what
  it returns or changes; the data types have spec views and well-formedness predicates,
  and the properties that relate several calls stand as public proof functions (named
  `lemma_*`). The main parts:
  - `items`, `listing`, `tree`: the listing of the project's entries, its folds, the
    selection and what each key binding does to the tree;
  - `app`: the application state, how a key press reaches its parts and how the events
    they hand out are taken one at a time;
  - `config`, `keys`, `style`: bindings, key and colour texts, merging of settings and
    conflicting bindings;
  - `input_box`, `pending`, `popup`, `file_cmd`, `fuzzy`, `marks`, `preview`: the popups;
  - `ignore_rules`, `refresh`, `dir`, `files`, `path`, `text`, `queue`, `scroll`: the
    pieces underneath.
- Calls into outside crates (`ignore`, `globset`, `human-sort`, `fuzzy-matcher`,
  `bitvec`) go through small trusted wrappers whose contracts say what the crate's source
  shows; each is marked `#[verifier::external_body]` and documented where it stands.
- `app/` is the terminal program: argument handling, reading and writing files, asking
  `git status` for the tree's signs, the
  terminal and the disk watcher threads, and drawing. It hands the library plain values
  and performs the work that the library's steps hand back.
- `tests/` runs the library on concrete values.
