# dango

The game and networking logic of a small multiplayer physics game ("dango" blobs that
roll, crawl and jump), verified with Verus.

- `src/` is the verified library:
  - `player`, `world`, `eyes`, `mesh`: players' input and the commands that change it, the
    player registry of the physics world, the blinking eyes, and the index bookkeeping of
    the soft-body meshes;
  - `address`, `client_packet`, `server_packet`, `timestamp`: socket addresses, packets and
    timestamps as plain values;
  - `keyed_map`, `connections`, `listener`, `server_socket`, `client_socket`, `webrtc`,
    `session`: the connection table, the server's packet listener, the browser-hosted
    server socket, the client socket, the WebRTC handshake and the HTTP session handshake;
  - `signalling`: the signalling server's rooms and its responses;
  - `client`, `webgl2`, `texture`: client-side decisions and the render pass setup.
- `app/` runs the signalling server on actix and holds the host-facing helpers (local
  address, free ports, the clock) and the link conditioner.
- `tests/` exercises the library on concrete values.
