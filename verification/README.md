# flyline

Line editing and tab completion for an interactive shell.

`src/` is the library. It decides what the editor does: which completions are
offered and in which order, what is inserted, what is shown below the text, how the
screen is moved out of the way when the terminal changes its size, how an agent is
asked and answered, and how a session ends. Every function has a contract that Verus
proves. Laws that span functions stand beside them as proof functions.

- `text`, `number`, `order`, `lists`: texts, numbers, sorting by keys, filtered lists
- `fuzzy`, `files`, `paths`, `words`, `comp_spec`: the sources of completions
- `suggestion`, `context`, `search`: what they offer, for which word, and who wins
- `textbuffer`, `readline`: the edited text, and shell commands that change it
- `state`, `tab_complete`, `buffer_change`, `agent`, `mouse`, `lifecycle`: a session
- `resize`, `system`: the terminal and the machine

Three outside crates are called, behind small wrappers whose contracts say what is
relied on: skim (`fuzzy`), unicode-width (`resize`) and libc (`system`).

`app/` is the editor on a real terminal. It asks the shell, the disk and the terminal,
and hands the library what they answer. `tests/` runs the library.
