# modou

The logic of the modou (墨斗) editor backend as a verified library, with the
Tauri application around it.

- `src/` — the library, verified with Verus. Each module states what its
  functions compute in `requires`/`ensures` contracts over mathematical
  models, and proves the properties the editor relies on:
  - `edit_script`, `line_diff`, `git_status`: Myers' line diff (the script it
    reads off is a shortest edit script), its summary as gutter marks that lie
    within the edited text, and the git status badges.
  - `file_tree`: one level of the project tree — ignored names left out,
    directories first, then entries by the bytes of their names.
  - `watch`: the table of open files watched for changes on disk; syncing it
    to the same files twice changes nothing.
  - `recent`: the recent-projects list, its menus and menu events.
  - `terminal`: ids and sizes of the embedded terminals; an id is never
    handed out twice.
  - `dock`, `provider`, `docking`, `settings`, `commands`: the docking
    state machine, the external terminal providers, the accessibility
    error codes, the settings and the checks of the editor's commands.
  - `text`: strings as sequences of characters (lines, trimming, search,
    replacement, decimal numbers).
- `tests/` — tests of the library on concrete values.
- `app/` — the Tauri application: commands, windows and menus, the docking
  worker thread, pseudo-terminals, git and file-system access, and the
  floating-point window geometry. It calls the library for every decision.
