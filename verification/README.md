# demo_stage

The verified core of DemoStage, a tool that records terminal demos and exports
them (cast, html, gif, mp4), optionally with browser scenes revealed beside the
terminal.

Everything under `src/` is checked by Verus against its `requires`/`ensures`
contracts. The program around it (reading files, running the shell in a PTY,
driving a browser, rendering fonts, prompting the user) is not part of this
crate; it hands the library plain values and acts on what it returns.

## Layout

- `model` — the score: demo settings, sources, layout and panes, timeline steps,
  raw capture events.
- `capture`, `session`, `decode`, `control` — the capture: routing typed input,
  spotting secret prompts, muting control commands, arming and firing reveals,
  the watchdog's tick, decoding PTY output across reads.
- `recording`, `playback`, `replay`, `cast` — turning a capture or a cast into
  a recording, replaying a score's timeline step by step, reading and writing
  casts.
- `edit`, `reveal_edit`, `focus`, `open`, `setup` — the editor's actions and
  the wizards' decisions.
- `stage`, `composite`, `cells`, `raster`, `pdf`, `screenshot`, `gif`, `html` —
  export: the stage's panes and scroll, compositing, drawing terminal cells,
  colours and procedural glyphs, PDF and screenshot pixels, GIF frame deltas
  and delays, base64.
- `canvas`, `cli`, `export`, `browser`, `mime`, `fonts`, `doctor`, `shell` —
  settings and their parsing, local URLs and file serving, font names, the
  doctor's checks, shell quoting and key codes.
- `text` — the string and sequence helpers the rest is proved with.

Laws that span functions are public proof functions named `lemma_…`, next to
the functions they speak of.

`tests/` exercises the library on concrete values.
