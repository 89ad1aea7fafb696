# pkgr

Pick a script from `package.json` or a task from `deno.json` and run it, without
having to remember what the project calls things.

```
> pkgr

  Select a task  (package.json)

> dev      vite
  build    tsc -p . && vite build
  test     vitest run
  lint     eslint .

  up/down move · type to filter · enter run · esc cancel
```

The library is verified with Verus. It holds everything that is decided, parsed,
laid out or looked up; the program around it reads files, talks to the terminal
and starts the task.

| Path | Purpose |
| --- | --- |
| `src/json.rs` | the JSONC scanner |
| `src/json/grammar.rs` | what the bytes of a manifest mean |
| `src/json/writing.rs` | that a manifest reads back as it is written |
| `src/json/tails.rs` | that nothing after a manifest matters |
| `src/json/offsets.rs` | that syntax errors point into the text |
| `src/manifest.rs` | locating manifests, package-manager detection |
| `src/ui.rs` | the picker loop |
| `src/ui/session.rs` | what the picker does, key by key |
| `src/ui/frame.rs`, `row.rs`, `filter.rs` | drawing, rows, filtering |
| `src/ui/laws.rs` | what holds of the picker whatever is typed |
| `src/ui/unix.rs`, `windows.rs` | key decoding on each platform |
| `src/ui/scripted.rs` | a console driven by a fixed list of keys |
| `src/run.rs` | looking a tool up on `PATH`, exit codes |
| `src/cli.rs` | from the arguments to the exit code |
| `src/text.rs` | small operations on text |
| `src/std_items.rs` | the parts of the standard library that are trusted |
| `app/` | the program: files, terminals, processes |
| `tests/` | the library at work on concrete values |
