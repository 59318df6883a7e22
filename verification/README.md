# capsaicin

A SPICE remote-display client and server core, verified with Verus.

- `src/proto`: wire messages, with every encoding proved to be read back.
- `src/lz`, `src/glz`, `src/quic`: the image codecs.
- `src/net`: framing, the link handshake, ticket authentication, CA bundles
  and certificate pinning, and the main-channel bootstrap, as steps over bytes.
- `src/client`: what a client makes of main, display, cursor and inputs
  messages.
- `src/server`: sessions, and the server side of the bootstrap.
- `src/viewer`: a framebuffer, what display events paint into it, and input
  events from keys and mouse.
- `src/cli`: the arguments of the program.
- `app`: sockets, TLS, tasks, the window and the browser bindings around the
  library.

The library performs no I/O: it takes the bytes that were read and says which
bytes to send.
