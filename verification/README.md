# Thunderboard

A tray-resident soundboard for voice chat: global hotkeys, per-sound pitch
progressions, profiles, folder profiles.

- `src/` is the board's logic, verified with Verus. It computes on plain values
  and calls nothing outside the standard library.
- `app/` is the program around it: the tray, the window, the shortcuts, the disk
  and the arithmetic of playback rates.
- `tests/` runs the library.

| Module | What it holds |
| --- | --- |
| `config` | clips, profiles, settings, and finding one's way in them |
| `migrate` | the bank of free shortcuts, and reissuing old bindings |
| `launch` | repairing a stored configuration, and the tray menu |
| `pitch` | the pitch walk, and what a press plays |
| `layout` | shortcuts on keyboards that are not American |
| `hotkeys` | which shortcuts are registered, and in what order |
| `paths` | paths of audio files, as Windows reads them |
| `folder` | walking a folder, and keeping a profile in step with it |
| `import` | copying files in without overwriting any |
| `devices` | the list of output devices |
| `window` | where the window opens |
| `ids` | ids of clips and profiles |
| `single`, `text`, `place` | comparing numbers and texts, and finding things in lists |

Volumes, offsets and rates are single-precision numbers. The library holds their
bit patterns (`Single`) and compares and clamps them; `app/` does the arithmetic.
