# kitsune2-transport-dtn

A Kitsune2 transport over a local `dtn7-rs` daemon, with its decisions verified by Verus.

The daemon's `GET /endpoint?<service>` removes a bundle as it returns it. The transport
therefore commits every bundle to a durable journal before it decodes it, and removes the
record only after the Kitsune2 handler has returned with success.

## Layout

- `src/` is the verified library. It decides and performs no input or output.
- `app/` is ordinary Rust around it: HTTP, files, the environment, the receiver task, and the
  implementations of the Kitsune2 traits.
- `tests/` runs the library, with the real crates that it calls linked.

## What is proved

- The daemon is polled only while the journal is empty (`law_polls_only_with_empty_journal`).
- Only committed bundles are dispatched, and a record is removed only after it was handed on
  (`law_committed_before_dispatch`, `law_removed_only_after_delivery`).
- No committed bundle is lost through failures and restarts, and whatever the journal holds is
  handed on before the daemon is polled again (`law_committed_bundles_are_kept`,
  `law_pending_is_delivered_before_polling`).
- A failure to list, read, commit or remove a record stops the receiver for good
  (`law_failed_journal_stops_receiving`).
- A record is committed only after its file was written and synced, renamed, and its directory
  synced (`law_commit_needs_every_step`).
- What is read of a record is what was committed; a wrong length and every corruption within
  four neighbouring bytes are refused (`law_committed_record_reads_back`,
  `law_wrong_length_is_refused`, `law_corruption_is_refused`).
- The journal never exceeds its capacity, recovers complete records and refuses incomplete ones
  (`law_capacity_is_kept`, `law_complete_record_is_recovered`,
  `law_incomplete_record_fails_startup`).
- It overwrites nothing: neither a commit nor a recovery uses a name that the directory holds
  when it is listed (`law_commit_uses_a_free_name`, `law_commit_replaces_nothing`,
  `law_recovery_overwrites_nothing`). Recovery renames and touches nothing else, and settles the
  directory (`law_recovery_only_renames`, `law_recovery_settles_the_directory`); the journal is
  open only after every rename and the sync (`law_open_needs_every_rename_and_sync`). A removal takes its own record and no other
  (`law_removal_takes_one_record`, `law_removal_is_exact`).
- The bytes that are committed are those that were received, and the bytes that are dispatched
  those of the record (`law_bytes_at_hand_are_the_bundle`).
- Nodes and services have journals of their own (`law_services_have_their_own_journals`).
- The URL of a node leads back to the node (`law_node_url_round_trips`).

Delivery is at least once: a crash between the handler's return and the removal of the record
replays the bundle. The checksum finds accidents and is no protection against tampering. A
bundle that is lost between the daemon's answer and the journal cannot be recovered here.

## Settings

`KITSUNE2_DTN_JOURNAL_ROOT` relocates the journals, which stand in `.kitsune2-dtn-journal`
otherwise. `KITSUNE2_DTN_JOURNAL_MAX_BYTES` bounds the bytes that a journal may hold pending,
512 MiB otherwise; it must hold at least one bundle of 64 MiB.
