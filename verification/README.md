# zerowhats

The decision logic of the ZeroWhats desktop WhatsApp client, written in Verus
with its contracts proved, plus the Tauri program around it.

- `src/` — the verified library: the account collection and its repair
  (`accounts`), settings and their views (`config`), the app lock and its
  brute-force cooldown (`lock`), unread totals (`unread`), release version
  comparison (`updater`), window labels, navigation allow-list, download naming
  and account-window plans (`window`), clipboard payloads (`clipboard`),
  notifications (`notification`), the tray menu and badge (`tray`), page
  scripts (`scripts`), page events and process environment (`events`), and
  command rules (`commands`). Calls into `base64`, `png`, `url` and
  `serde_json` go through small trusted functions whose contracts name what
  those crates compute.
- `tests/` — tests of the library on concrete values.
- `app/` — the Tauri program: windows, tray, notifications, clipboard and file
  I/O, `config.json` persistence, the update check, and the serde copies of the
  library's records. It expects the `web/*.js` page scripts, the `icons/` and a
  `password` module (hashing and administrator reset) beside it.
