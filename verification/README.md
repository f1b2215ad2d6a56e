# doubao_voice

The decision logic of the Doubao voice input client, written in Verus and
verified: the functions in `src/` carry `requires`/`ensures` contracts that
Verus proves, except the few trusted wrappers around outside crates and std,
whose contracts are assumed.

- `src/` — the verified library: the bridge protocol and session text
  (`bridge`), the session's stop-and-deliver sequence (`session_flow`),
  arming pre-roll audio (`preroll`), live-text replacement planning
  and delivery (`live_text`), the transcript text field (`transcript_editor`),
  the overlay's phases and voice state (`overlay`, `overlay_state`), background
  palette hysteresis (`glass_background`, `ring_sampling`), live backdrop
  thumbnail placement (`backdrop`), glass material
  policy and the texture baker's state (`glass_policy`, `glass_bake`,
  `glass_probe`, `voice_glass`), shortcut parsing and X11 key grabs
  (`linux_shortcut`, `x11_keymap`), desktop integration decisions
  (`gnome_shortcuts`, `portal`, `linux_paste`), settings validation
  (`settings`, `voice_config`), tray labels and icons (`tray`, `tray_icon`)
  and UTF-16 text for the Windows shell (`wide`).
- `tests/` — tests run against the compiled library.
- `app/` — the command-line front end: files, environment, sockets, threads
  and the floating-point audio and pixel work around the library.

Calls into `serde_json`, `unicode-segmentation`, `png` and a few std
functions are made through trusted wrappers, each documented with what its
contract assumes.
