# dsh_desktop

The DeepSeek Harness desktop shell: a Tauri v2 application that spawns the
harness backend (`node <repo>/apps/cli/lib/bin.js --profile web --port 0`) as a
hidden child process, reads the `dsh web: <url>` readiness line from its
stdout, and hosts the harness UI in a WebView2 window.

The decisions the shell makes are a library verified with Verus (`src/`):

- `parse`: the stdout handshake, `parse_url_line`, with the round trip of the
  readiness line proved.
- `launch`: the backend launch spec (`resolve_spec`, `backend_args`) and the
  precedence of `DSH_DESKTOP_BACKEND_CWD`, `DSH_DESKTOP_REPO_ROOT`,
  `DSH_DESKTOP_NODE` and the compile-time repository root.
- `path`: Windows path semantics (`Path::parent`, `Path::ancestors`,
  `Path::join`) as the launch spec needs them, with `baked_repo_root`.
- `backend`: exit classification, the capped stderr tail, the kill command.
- `shell`: the state machine that answers readiness URLs, backend exits and
  window close requests, and the exit message.
- `text`: Unicode white space, trimming, decimal rendering.

`app/` is the Tauri plumbing: spawning, pipe reading, dialogs and windows. It
performs the actions the library decides on.

`tests/` runs the library on concrete values.
