# awsm-audio (verified core)

The structural logic of the awsm-audio node-graph WebAudio editor, written in
Verus with machine-checked contracts.

## Layout

- `src/` — the verified library.
  - `enums`, `schema` — the WebAudio enumerations and the document model
    (sample library, node graphs, wires) as plain values.
  - `validate` — `SampleLibrary::validate`: dangling references (on every
    kind of wire endpoint, sequencer outputs and trigger inlets included), signal-kind
    mismatches, custom oscillators without harmonics, unknown sample
    references and sample-reference cycles, reported in a fixed order.
    `validate_laws` proves that an empty report means a structurally sound
    library (and that the cycle search reports exactly when references are
    circular, that a search from one sample reports only real cycles, and
    that references to unknown samples are ignored by it).
  - `ports` — audio port counts, sequencer output keys, node type labels.
  - `layout` — the layered auto-layout grid; `layout_laws` proves that on an
    acyclic graph each node's column is its longest distance from a source
    and that rows stack in declaration order.
  - `worklet`, `text` — the AudioWorklet shim source with its bank size
    substituted (proved to register the processor name the player
    instantiates and to leave no placeholder); decimal rendering and pattern
    replacement.
  - `wav` — 16-bit PCM WAV framing.
  - `piano_roll`, `curve`, `command`, `context_menu`, `search` — the editor's
    small decision tables: note colours and row labels, curve cycling, which
    commands skip undo snapshots, context-menu entries, palette and sample
    picker filtering, the picker's rows with their root and active flags,
    track tab labels.
  - `inspector` — which panel the inspector shows for the selected node.
- `tests/` — executable tests of the library.
- `app/` — the browser-side shell: serde forms of the enums, error messages,
  floating-point DSP (noise, worklet processors, filter design) and geometry,
  WAV download.
