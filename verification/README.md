# multiplexing_stream

A reverse access proxy that carries client connections to upstream servers
as channels multiplexed over one WebSocket connection, using the
Nerdbank.Streams framing protocol (MessagePack frames).

- `src/` is the verified library:
  - `msgpack`: the MessagePack encodings the frames are made of, and the
    calls into `rmp` that write and read them;
  - `frame`: channel ids, frames, `encode_frame` / `decode_frame`, and the
    proofs that a written frame reads back (seen from the other end) and
    that reading from a stream never needs bytes past the frame;
  - `pipe`: the bounded in-memory pipe behind each channel;
  - `streams`, `multiplexor`: routing of received frames, the pump that
    drains a channel, the frames that open and accept channels;
  - `rw`: the buffer logic of a reader over a channel of chunks;
  - `proxy`: the turn-taking choice of upstream multiplexor.
- `app/` is the program: sockets, TLS, WebSocket, tasks and channels,
  and the async I/O that drives the library.
- `tests/` exercise the library on concrete values.
