# mpfiles

The verified half of a file browser's disk map and its local-model chat.

- `src/` decides. Every function in it has a contract, and Verus proves it.
  - The chat: `prompt` writes the turns, `tool_call` reads the model's calls, `worker` is the
    worker's state machine, `model_file` is where the weights are looked for, and `hub` is the
    in-process hub.
  - The map: `tree` and `tree_laws` are the bytes behind it, `view` and `view_laws` its state
    and what a scan, a press or a finished file operation makes of it, `view_ref` a map that
    may not be there, `scan` the worker's messages, `cells`, `kind` and `path` what they are
    made of, and `paint` and `fit` every line of text and every choice between two ways of
    painting.
  - `text` is characters and strings.
- `app/` acts: threads, channels, the disk and the screen.
- `tests/` runs the library on concrete values.

The one thing taken on trust is that `String::push` appends its character.
