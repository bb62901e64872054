# lightherder

The control side of a video-feedback instrument — Dave Blair's 4K Light
Herder, played from a Korg nanoKONTROL2 — as a library whose behaviour is
stated in `requires` / `ensures` contracts and proved with Verus.

## Layout

- `src/` — the verified library.
  - `wire` decodes the MIDI byte stream as reads land, running status and
    system exclusive frames included.
  - `lamps` is the surface's own protocol: Korg's seven-bit packing, the
    scene dump and its acknowledgement, and what lighting a set of buttons
    puts on the wire. `panel` is the handshake that takes the surface's LED
    mode and hands it back, as a state machine from event to next step.
  - `params`, `command`, `rig` and `midi` are the rig's vocabulary — nodes,
    knobs, focus, actions, router selects and period beats — and the
    factory map of the surface: which control turns which knob, how far a
    fader's move turns it, and which lamps a panel lights.
  - `desk` decides what each action does to the focus, the named knob, a
    held cut and the latched modes, and what it asks of the rest.
  - `tempo` is the pass clock; `present`, `feedback`, `input`, `capture`
    and `readback` are the integer arithmetic of the display grid, the frame
    bank and the ring a graph's reach buys, the seed's test patterns and
    ffmpeg command lines, and a capture's names, encoder command line and
    padded rows.
  - `canvas` and `overlay` draw the controls overlay's picture of the
    surface, every drawing operation stated as the texels it inks.
  - `cli`, `cards` and `config` read the command line, find the surface in
    the sound card list, walk the focuses a knob distinguishes, and hold each
    camera's delay to the graph's reach and the reach to what the delay
    units have.
- `tests/` — scenarios on concrete values, run against the compiled library.
- `app/` — the program around it: the command line, the load-time checks
  of the graph's delays and bank, the signal handling,
  the device files and the threads that read the surface and drive its
  lights. It has no renderer.

Floating-point state — the crossfades, the knobs' values, the tempo's rate
— stays outside the library; the library takes what it needs of it as
integers (a thumb's row, a beat in nanoseconds).
