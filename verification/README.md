# cozyui

A cozy pixel-art desktop: a terminal in an old case, a notebook of to-do lists,
a chat with fwends, a radio, a budget, a calendar, and small meters, all on one
desk. It also has a chat for the terminal, in which a small model works with
tools under the advice of a larger one.

## Layout

- `src/` is the library. The desktop's integer rules stand there with contracts
  that Verus proves: text editing and wrapping, fonts, palettes, sprites and the
  framebuffer, the layout of the desk and the routing of the pointer, the
  notebook and its archive, budgets and calendars, the terminal's keys, colors
  and selection, the chat's requests and replies, and the turns of the tool-using
  student. Laws that relate several functions are public proof functions beside
  them.
- `tests/` runs the library on concrete values.
- `app/` is the program around it: the window, the shell, files, processes, the
  clock, and what needs floating point, such as the budget's sums, the volume
  knob and the needles of the gauges.

Pictures are described as lists of shapes (`src/scene.rs`) or painted straight
into a framebuffer; for what `src/` paints itself the contracts say the color of
every pixel.

## Running

`cozyui` opens the desk; its pictures and fonts are PNG files in the `art` folder
of the configuration directory. `cozyui senpai [message]` answers one message, or
holds a conversation. Requests to models need `OPENROUTER_API_KEY`, and
searches `BRAVE_ANSWERS_KEY`. `COZYUI_SENPAI_MODEL`, `COZYUI_FWEND_NAME`,
`COZYUI_FWEND_MODEL` and `COZYUI_FWEND_THINKING_MODEL` choose who answers.
