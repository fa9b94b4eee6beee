# zwiesel

A small TCP client/server toolkit for a user-defined protocol: implement
`Message` (serialization of your message type to the payload of one frame and
back) and exchange length-delimited frames.

- `src/` is the verified library: the server's registry of connected clients
  (`server::Server`), the decisions a server and a client take on each network
  event (a new connection, a frame, the end of a stream, the outcome of a send
  or of a broadcast), client identifiers and their hexadecimal form, and the
  error and event types.
- `app/` is the asynchronous driver built on tokio: it binds, accepts, reads and
  writes frames, hands each outcome to the library, and gives the errors their
  `Display` text.
- `tests/` exercises the library on concrete values.
