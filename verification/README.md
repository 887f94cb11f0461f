# VaultX

An account vault for League of Legends accounts: an encrypted vault file
(PBKDF2-HMAC-SHA256 and AES-256-GCM through `ring`), the op.gg profile
reader, the League client lobby reader and the decisions around them,
verified with Verus.

- `src/` — the verified library. `crypto` and `storage` seal and open the
  vault envelope; `session` holds the unlocked vault and its account
  operations; `scraper` reads an op.gg profile page; `lobby` and `collect`
  read the players of the client's lobby; `update` compares versions and
  picks the release asset; `system` holds the start-up, task and path
  decisions; `clock`, `codec`, `json` and `text` are the helpers.
- `app/` — the program around it: files, HTTP, the clipboard, the
  registry, processes and threads, and the JSON forms of the library's types.
- `tests/` — tests of the library on concrete values.
