# lx_music_sync

A sync server for LX Music playlists and dislike lists, with its core
proved correct by Verus.

- `src/` is the verified library: the three-way merges of songs, playlists
  and dislike rules; the changes a device sends; snapshot bookkeeping; the
  handshake with a password or a device key; the failed-login counter; the
  framing, routing and heartbeat of the WebSocket; and the first sync of a
  device as a step function from phase and event to the next phase and
  commands. Calls into `openssl`, `base64`, `flate2`, `rand` and `dashmap`
  go through small functions whose contracts state what those crates do.
- `app/` is the server around it: the HTTP routes and WebSocket plumbing
  of `axum` and `tokio`, the JSON files on disk, and the serde forms of the
  library's types.
- `tests/` exercises the library with the real crates linked.

The server listens on `127.0.0.1:9527` and keeps its data under the working
directory:

```
config.json          server name, proxy setting, users
server_info.json     server identity
users/<username>/
    devices.json     the user's devices
    list/            playlist snapshots
    dislike/         dislike list snapshots
```
