# hearsay

Topic-based publish/subscribe messaging between processes, with its rules
stated and proved in Verus.

- `src/` is the verified library: the broker's routing decisions
  (`broker.rs`, `routing_laws.rs`, `bridge.rs`, `dedup.rs`, `topics.rs`), the
  client's subscription bookkeeping (`client.rs`), the wire framing
  (`wire.rs`), batching (`batch.rs`), process supervision (`spawn.rs`), and
  the decisions of the demo windows and pages (`registry.rs`, `window.rs`,
  `shell.rs`, `project.rs`, `settings.rs`, `files.rs`, `modals.rs`,
  `chrome.rs`, `themes.rs`, `web_shell.rs`, `widget_rpc.rs`, `template.rs`,
  `page.rs`).
- `app/` is the runtime around it: sockets, tasks, processes and the serde
  forms of the library's messages.
- `tests/` runs the library on concrete values.
