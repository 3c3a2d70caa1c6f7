# DuckDisk core

DuckDisk shows what takes up space on local disks, OneDrive, Google Drive and
SSH servers, and lets the user move what they choose to the recycle bin,
Trash, or delete it on the server. This crate is its core, verified with
Verus: every function in `src/` carries a contract, and the laws that tie the
functions together are proved as proof functions.

- `src/cloud_items.rs`, `src/cloud_tree.rs`: the cached items of a cloud
  drive, and the size-ordered tree that a scan reports.
- `src/onedrive.rs`, `src/google_drive.rs`: accounts, scans in progress, the
  delta and changes feeds applied to the cache, request URLs, how each HTTP
  answer is read, moves to the recycle bin or Trash, and the sign-in callback.
- `src/oauth.rs`, `src/retry.rs`, `src/scan_table.rs`: sign-in callbacks,
  retry delays and the registry of running scans, shared by the services.
- `src/scan.rs`: the `pdu` command line, its progress and error output, the
  error report, and the incremental rescan of a cached local scan.
- `src/ssh.rs`, `src/ssh_mas.rs`: saved SSH connections, the remote commands
  and the reading of their output, for the `ssh` client and for libssh2.
- `src/local_files.rs`, `src/temp_files.rs`, `src/updates.rs`,
  `src/instance.rs`, `src/oauth_config.rs`, `src/window_style.rs`: deleting
  local items, result files, release checks, the single-instance handshake,
  client ids and window styling.
- `src/external.rs`: the calls into outside crates and std that the library
  relies on, each with the contract it is trusted to meet.

`app/` is the command host around the library: it reads requests as JSON
lines, performs the file, process, keychain and network work, and reports
progress as events.
