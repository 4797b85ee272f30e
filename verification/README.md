# openflow

The decision logic of the OpenFlow dictation app, written in Verus: the
public functions in `src/` carry contracts, and Verus proves every function
there against its own contract and those of the functions it calls.

- `src/` — the verified library: transcript cleanup (`text`), dictionary and
  snippet expansion, note HTML conversion (`notes`, `notes_round_trip`), the
  `fn`-key gesture recognizer (`fn_gesture`), settings repair (`settings`),
  LLM and speech-engine profiles (`profiles`, `stt_profiles`), request
  planning and reply handling for chat and cloud transcription (`llm`,
  `cloud_stt`), the dictation pipeline's decisions (`pipeline`), model
  downloads (`models`), usage statistics (`stats`), dictionary suggestions
  (`suggestions`) and hotkey planning (`shortcuts`).
- `tests/` — tests of the library on concrete values.
- `app/` — a command-line front end: settings and profile files, network
  calls and sample-level audio work, built on the library.

Calls into `regex`, `chrono` and a few `std` functions go through small
trusted wrappers whose contracts name what the call returns; each wrapper's
doc comment says what is assumed.
