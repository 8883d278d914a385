# tetris_bot

A placement assistant for TETR.IO. It reads the game off the screen, asks a
search engine for the best placements and shows them as ghost pieces on a
transparent overlay. No inputs are sent to the game.

`src/` is the verified library: everything that decides or computes. Its
contracts are proved by Verus, with one exception: `screenshot::get_pixel`, which
reads a pixel through the `image` crate, is a trusted wrapper whose contract is
taken on faith.

| Module | Purpose |
|--------|---------|
| `single` | Single-precision rounding on integers. |
| `color` | Cell colours and their classification by hue. |
| `component`, `field` | Connected groups of cells; taking the falling piece off the board. |
| `config` | Settings and their defaults. |
| `capture` | Frames and the region of the screen that is kept. |
| `vision` | Reading a game state off a frame. |
| `ai`, `worker` | Pieces, engine settings and the background worker. |
| `bot` | The main loop. |
| `overlay`, `panel` | What the overlay and the control panel show. |
| `input` | Turning moves into key presses. |
| `screenshot`, `inspect`, `analyze`, `calibrate` | Finding the right settings. |

`app/` is the program around it: screen capture, the engine's threads, the
overlay window, the control panel and the command line. The worker and the main
loop are state machines in the library; the program performs the actions that
they ask for and hands back what came of them.

`tests/` runs the library.

## Running

| Command | Purpose |
|---------|---------|
| `tetris_bot` | Runs the assistant with the settings of `config.toml`. |
| `tetris_bot calibrate [sample \| grid \| scan]` | Inspects the live screen. |
| `tetris_bot analyze [png] [sample \| grid \| hscan \| vscan]` | Inspects a saved screenshot. |

F9 starts and stops the assistant, F10 pauses it.
