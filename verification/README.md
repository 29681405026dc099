# A2Tools DPS Meter

The core of a real-time damage meter, verified with Verus, and the application
around it.

- `src/combat/` — the storage behind the meter: who hit whom with what, who is who,
  which summon belongs to whom, and when a fight begins and ends. `model.rs` gives
  the state as mathematics and what each event does to it; `data_storage.rs` carries
  it out; `laws.rs` proves what holds throughout.
- `src/capture/` — from captured frames to TCP payloads, and which devices to
  capture on.
- `src/replay/` — packet logs: timestamps, hexadecimal payloads, what a log asks for.
- `src/history/` — the list of saved fights and when it has to be read again.
- `src/ui/` — where windows go, which of them serves a request, what is remembered.
- `src/update.rs` — offering and downloading an update.
- `tests/` — the library on concrete values.
- `app/` — capture threads, files, windows and commands.

What the library takes from outside without proof is marked where it stands: the
wall clock (`src/clock.rs`), whitespace and strings of std (`src/text.rs`), and the
JSON parser (`src/dot_skills.rs`).
