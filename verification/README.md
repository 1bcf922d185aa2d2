# codexx

The logic behind the `codexx` terminal interface that concerns status and agents,
written in Rust and verified with Verus.

`src/` is the library. Every public function states in its contract what it returns or
changes.

- `status_ipc`, `status_request`: the read-only status interface of a running
  session, from dispatching a request to its answer.
- `agent_tree`, `agent_tree_laws`: the tree of the threads of a session, and what
  holds of it.
- `status_command`, `cells`: the table and the JSON of `codexx status`.
- `thread`, `app_state`, `id_map`, `report`: threads, and the state of the terminal
  interface that concerns them.
- `picker`, `new_agent`, `recoverable`: what the `/agent` commands show.
- `selection`, `lifecycle`: switching threads, and starting, resuming and replacing
  sessions.
- `agents`, `wait_agent`, `resume_agent`, `list_agents`, `register_agent`: the
  multi-agent tools.
- `runtime_config`: what agents are configured with when they are spawned or brought
  back.
- `text`, `order`, `paths`: strings, sorting and file paths.

The library does no I/O. Where an operation asks the app server or the user, it is a
value that says what it waits for and takes what came back.

`app/` drives the library against files, sockets, processes, the app server and the
terminal. `tests/` runs the library on concrete values.
