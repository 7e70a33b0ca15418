# TelSync

A small panel that compares a TelDrive remote file tree with a local folder, queues the
missing files in aria2, cleans up what unfinished downloads leave behind, and updates itself.

The decisions are a library verified with Verus (`src/`); the server around it (`app/`) does
the network, disk and process work and asks the library what to do.

- `src/tree.rs`: the file tree, finding nodes, flattening folders, marking what exists locally.
- `src/local_scan.rs`, `src/teldrive.rs`: building the local and the remote tree from listings.
- `src/enqueue.rs`: which files a download request queues, and where they go.
- `src/tasks.rs`: what the download list shows of aria2's tasks, and how tasks are removed,
  retried and cleaned up.
- `src/paths.rs`: path handling, checked delete targets, and pruning empty folders without
  ever leaving the sync folder.
- `src/config.rs`, `src/aria2_ctl.rs`: settings updates, the aria2 command line, and the steps
  that bring a saved configuration to a running aria2.
- `src/install.rs`, `src/update.rs`: the aria2 install wizard and the self-update.
- `src/outside.rs`: the calls into `reqwest`'s URL type, `semver` and `urlencoding`, with the
  contracts the library relies on.
- `src/text.rs`: string helpers with their specifications.
