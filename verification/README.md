# QuickSample

A small desktop sampler: record from whatever input is selected in `pavucontrol`, trim
a region in the waveform, and save it as a 48 kHz stereo 16-bit WAV. Its logic is a
library verified with Verus; the window and the sound server stand around it.

## Layout

- `src/` is the verified library.
  - `sample`, `rounding`, `text`: samples as bit patterns, and exact rounding and
    numerals on integers.
  - `peaks`: the incremental multi-resolution min/max cache of the recording.
  - `audio`, `engine`: the recording, the levels, and what the capture and playback
    loops do.
  - `waveform`, `view`, `position`, `zoom`, `meter`, `clock`: what the window draws.
  - `selection`, `session`: what the mouse, the keys and the buttons do.
  - `wav`, `path`, `save`: the file that is written, and its name.
- `tests/` runs the library on concrete values.
- `app/` is the program: the Dioxus window, the PulseAudio threads, the file dialogs,
  and the floating-point arithmetic between frames and pixels. It needs Dioxus with its
  `desktop` feature, `libpulse`, WebKitGTK and a running PulseAudio (or PipeWire-Pulse).

## What is proved

Each function's contract says what it returns or changes, over the mathematical models
in the same file: sequences of samples and frames, engine and session states, texts.
Public proof functions state what holds across functions: that the cache encloses every
sample and needs the raw samples only at the edges of a range, that a request is played whole or is outdated,
that a saved file reads back as what was recorded, and the like.

One outside call is trusted: `hound` encodes the WAV file, and `wav::encode_wav` says
which bytes that gives.

## Controls

| Action | Effect |
|---|---|
| **Record / Stop** | Start or stop capturing. New takes append to the existing recording. |
| **Clear** | Drop the recording, selection, cursor and zoom (idle only). |
| **Save** | Asks for a folder on first use, then writes `sample-NNN.wav` with the next unused number. |
| **Save As…** | Always shows a file dialog, remembering the last folder. |
| Left click on waveform | Set the cursor and play from there to the end. |
| Left drag | Select a region. |
| Right click | Move the far end of the selection (anchored at the cursor if there is none). |
| Mouse wheel | Zoom in/out around the pointer; a minimap appears when zoomed, click/drag it to pan. |
| **Space** | Stop playback if playing; otherwise play the selection, or from the cursor to the end. |
| **Escape** | Stop playback if playing; otherwise clear the selection and reset the cursor. |

Save and Save As export the selection if there is one, otherwise the whole recording.

Set `QUICKSAMPLE_SAVE_DIR=/some/folder` to skip the first-use folder dialog.
