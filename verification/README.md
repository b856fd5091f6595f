# web_server

The server behind a Discord voice-recording service: who may hear which
recording, how a session's fragments are laid out on its timeline, how
channel mixes and session downloads are planned and rendered with FFmpeg,
how silence removal and clip exports are queued idempotently, how media is
archived to remote storage, and the cookies, CORS and registry rules around
them.

- `src/` is the library, written in Verus: every function carries a
  contract and is verified, and the laws that span functions stand as
  proof functions (`law_*`).
- `tests/` runs the library on concrete values.
- `app/` is the executable around it: configuration, the HTTP server, the
  internal agent-registry endpoints, the health probe and the `media`
  operator command. It holds the I/O; the decisions it makes come from the
  library.

Modules of the library, by subject:

| module | subject |
| --- | --- |
| `text`, `order` | character and decimal helpers, stable ordering |
| `errors` | error kinds, HTTP statuses and client messages |
| `names` | validation of file, stem, segment and clip names; derived paths and keys |
| `permissions`, `members`, `voice_settings` | Discord permission resolution, role views, guild settings |
| `session`, `timeline`, `manifest`, `progress` | logical sessions, their timeline and manifest, FFmpeg progress |
| `mix`, `mix_plan`, `mix_render` | channel mixes: occupancy, sources, settings, status, filter graph |
| `compose`, `silence`, `silence_jobs`, `session_jobs` | session downloads, silence removal jobs, waveforms, session clips |
| `hls` | live HLS pipelines and their caches |
| `clip_exports` | clip export requests, the export queue, worker arguments |
| `archive`, `media_cli` | the media archive's steps, served responses, cache eviction, operator commands |
| `agent_registry`, `cors`, `cookies`, `ws_session` | agent routing, CORS, sign-in cookies, the websocket session |
