# relay_admin

The access-control core of a nostr groups relay, verified with Verus: the
whitelist and its reference accounts, the follow lists that extend it, admin
login by signed nip42 challenge events, admin sessions, and the event pruner's
settings and run steps.

Layout:

- `src/` — the verified library.
  - `pubkey.rs` — keys, hexadecimal and nip19 `npub` texts.
  - `text.rs` — string helpers (prefixes, equality, lowercase hex).
  - `keys.rs` — key lists: membership, removal, extension without repeats,
    decoding and encoding.
  - `json.rs`, `storage.rs` — the JSON files in which key lists are kept.
  - `whitelist.rs`, `reference_accounts.rs` — the whitelist and the accounts
    whose follows it takes in.
  - `follow_sync.rs` — which keys the latest contact lists follow.
  - `event.rs` — signed nostr events.
  - `table.rs` — keyed tables (sessions, challenges).
  - `admin.rs` — challenges, login and sessions.
  - `api.rs` — the decisions of the admin HTTP requests.
  - `pruner.rs` — pruner settings, totals and the steps of a run.
- `app/` — the HTTP routes, files, network fetches, database and clock around it.
- `tests/` — tests of the library.
