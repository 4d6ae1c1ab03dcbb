# gitea_notifier

A tray application that polls a Gitea server and notifies the user when the
latest workflow run of one of their repositories is new or changes status.

- `src/` is the verified library (Verus):
  - `text.rs`: decimal rendering of integers, trimming of trailing slashes,
    joining of strings, with the laws that tie them together;
  - `gitea.rs`: the API data types, the `Gitea` client configuration and the
    description of each request (URL, bearer token, query parameters);
  - `monitor.rs`: the statuses last seen of the runs (`KnownRuns`), the lines
    that report new or changed runs, and the notification built from them.
- `app/` is the application around it: JSON decoding, HTTP with reqwest, the
  settings store, the polling loop, the tray menu and the notifications (tauri).
- `tests/` runs the library on concrete values.
