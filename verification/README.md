# vesktop_voice_overlay

A Wayland voice-activity overlay for Vesktop. The plugin inside Vesktop sends
JSON lines over a user-only Unix socket; the overlay shows the voice channel's
participants with their avatars and highlights who is speaking.

- `src/` is the verified library (Verus): configuration and settings
  validation, protocol acceptance rules, line framing with its size limit,
  the connection lifecycle, participant selection and ordering, the avatar
  request state, image cache and download limits, the layer-shell placement,
  the overlay's row and visibility decisions, and the plan that moves the
  keyed rows on screen into the selection's order.
- `tests/` exercises the library.
- `app/` is the program around it: GTK4 widgets, the layer-shell window, the
  socket server and its threads, JSON and TOML decoding, HTTP downloads.
