# vapor_daemon

A daemon that keeps local folders and cloud storage in step. The decisions of
the daemon are a verified library; the process around it is ordinary Rust.

## Layout

- `src/` is the library. It reads no file and opens no socket: it is told what
  was found and says what to do. Every function states what it returns, and the
  `law_` functions state what holds across several of them.
  - events: `fs_events`, `path_filter`, `globs`, `event_intents`, `tracker`,
    `storm`, `debounce`
  - work: `scheduler`, `workgate`, `reconcile`, `app_state`
  - transfers: `planner`, `continuations`, `settling`, `local_apply`,
    `conflict`, `name_collision`, `safeguards`, `effects`, `provider_jobs`,
    `routes`, `executor`, `hashing`
  - the daemon: `profiles`, `multi_runtime`, `runtime_control`, `timeline`,
    `auto_tune`, `metrics`, `config`, `config_document`, `ipc_service`,
    `ipc_server`, `bootstrap`, `build_info`
  - values: `clock`, `paths`, `path_map`, `text`, `records`
- `tests/` runs the library on concrete values.
- `app/` is the process: files, sockets, threads, the configuration file.
