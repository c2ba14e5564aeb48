# termul

A terminal multiplexer: panes in a tiling tree, tabs, commands that are remembered and offered
while one types, a palette of the history, and files that are mentioned with `@`.

`src/` is the library, verified with Verus: the layout of panes and tabs, the state of the program
and what keys, the mouse and the output of the shells do to it, the reading of what shells and
terminals report, what is drawn, and the ranking of commands and files. It does no input or output.
What handling an event asks to be done outside it hands out as a list of effects.

`app/` is the program around it: the terminal outside, the shells in their pseudo terminals, the
emulator of each pane, the history on disk, the settings and the clipboard.

`tests/` holds the tests of the library.

| Module | What it is about |
|--------|------------------|
| `app` | the state of the program, and the effects |
| `event`, `input` | what comes in, and what it leads to |
| `session`, `layout`, `ratio`, `geometry` | panes, tabs and where they are |
| `palette`, `suggest`, `mention`, `menu`, `confirm`, `rename` | the popups |
| `input_line`, `shell`, `osc` | the input line of a shell, and what the shell tells |
| `history`, `rank` | which commands and files are offered, in which order |
| `term`, `snapshot`, `render`, `grid`, `keys`, `xtgettcap` | screens, and what goes to and from the emulator |
| `terminal_theme`, `color` | what the terminal outside tells |
| `draw` | what is drawn |
| `config`, `clipboard`, `pty`, `text` | settings, clipboard programs, sizes, text |

What the outside crates compute is described where they are called: `base64` in `osc`,
`nucleo-matcher` in `rank` and `ignore` in `mention`.
