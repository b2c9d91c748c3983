# pullsync

The verified core of PullSync, a commander-only "pull countdown" addon for Guild Wars 2
(loaded by Raidcore Nexus). The commander triggers a countdown; it shows as an on-screen
overlay and is announced in squad/party chat, and other squad members running the addon
mirror it from the chat line.

Layout:

- `src/` - the library, verified with Verus:
  - `countdown` - the countdown clock: whole seconds left, "PULL!", linger, one-shot sound triggers.
  - `chat_send` - rendering `{n}` templates, composing the typed chat line, planning the
    per-second chat countdown, and the pull button's start/cancel toggle.
  - `chat_listen` - reading a received line: marker, sender authorisation, cancel detection,
    the announced count, and what it does to the local countdown.
  - `extras_squad`, `squad`, `state` - the squad rosters and who may control the pull.
  - `ready_check` - detecting a ready check that finished with everyone ready.
  - `settings` - settings and named profiles (load, save, switch, create, rename, delete).
  - `sound` - which sound to play, and locating the sample data in a WAV image.
  - `ui` - what the overlay shows each frame and how edited values are stored.
  - `text` - character-level helpers (decimal rendering, replacement, trimming, case folding).
- `tests/` - tests of the library on concrete values.
- `app/` - the addon around the library: Nexus entry points and events, synthetic chat input,
  sound playback, the settings file and the ImGui drawing.

Time is a monotonic clock reading in nanoseconds, supplied by the caller; the overlay's
floating-point settings are held in the library as their `f32` bit patterns.
