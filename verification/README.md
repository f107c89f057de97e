# bangs

The logic of Bangs, a dynamic notch for macOS and Windows, as a Verus library
with its contracts proved.

- `src/` is the verified library: the activity rows and their loopback API
  (request heads, routing, answers), the dev panel (agent sessions, Codex
  logs, editor workspaces, paths and `file://` URIs), lyrics (LRC, QRC, YRC
  and translation readers, search matching, the fetch-and-retry flow),
  the clipboard panel, todos, settings and the tray menu, media state,
  update checks, and the small text and number routines they share.
  Calls into `serde_json`, `base64`, `sysinfo` and a few std functions stand
  behind trusted wrappers whose contracts are stated in their doc comments.
- `tests/` runs the library on concrete values.
- `app/` is the Tauri shell around it: windows, tray, files, network,
  processes and the platform FFI. Verus does not read it.
