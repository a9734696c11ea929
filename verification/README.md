# punktf

A cross-platform multi-target dotfiles manager, written as a Verus library
with its behaviour stated in contracts and proved, and a command line program
around it.

## Layout

- `src/` – the verified library:
  - `span`, `scan`, `tokens`, `block`, `parse`, `parser`, `session`,
    `diagnostic`, `source`, `template`, `resolve`, `variables`, `text`: the
    template language (cutting a template into blocks, parsing them, and
    resolving them against profile, dotfile and environment variables);
  - `cuts`: why resolving a template gives valid UTF-8 text;
  - `report`: formatting of template diagnostics for the terminal;
  - `profile`: profiles, dotfiles and the layering of a profile with the
    profiles it extends;
  - `paths`: where items are read from and deployed to, and how a profile
    file is found by name;
  - `deploy`: the decisions of a deployment, as state machines for files and
    symlinks that the program drives with what the file system answers;
  - `deployment`: the record of a deployment;
  - `summary`: the summary of a finished deployment;
  - `diff`: the changes a deployment would make, and the reports of them
    (unified and pretty file diffs);
  - `transform`: content transformers (line terminators);
  - `version`: profile versions.
- `app/` – the `punktf` program: command line parsing, reading profiles,
  walking the file system, running hooks, printing.
- `tests/` – tests of the library.
