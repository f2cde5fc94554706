# rt-doubao

A command-line client for a real-time voice dialogue service: it opens a
WebSocket to the service, starts a session, streams microphone audio to it and
plays the synthesized speech that comes back.

The crate is split in two:

- `src/` is the library, verified with Verus. It holds the binary frame
  protocol (encoding, decoding and their laws), the reassembly of received
  bytes into frames, the worker's reactions to reads and writes, the endpoint
  and header computations of the connection, the request payloads, the
  configuration, the classification of server messages, the integer audio
  conversions of the microphone, and the decoding of PCM streams for the
  speaker.
- `app/` is the program around it: command-line parsing, sockets and TLS,
  the WebSocket framing, threads and channels, the audio devices, JSON
  serialization of the payloads, and the floating-point audio steps
  (resampling, float mixing and scaling).

`tests/` exercises the library on concrete values.
