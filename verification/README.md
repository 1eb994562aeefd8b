# obcast

Audio streaming for radio outside broadcast. Audio is cut into short segments
that are uploaded one by one, so that a bad uplink causes delay and not loss. The
server tells the encoder where playout is and where its buffer is thin, and the
encoder sends what will be played: low quality first, more where the link allows.

- `src/` is the library: every decision of the encoder and of the server, as
  functions on plain values, with contracts that Verus proves. The files that end
  in `_laws.rs` state what holds across functions.
- `tests/` runs the library.
- `app/` is the program around it: HTTP, files, audio devices, subprocesses and
  the encoder's window.

Times are in milliseconds, gains in thousandths and samples are the bits of their
32-bit form: the library has no floating point.

The library trusts one outside crate, `ringbuf`, whose ring carries the decoded
samples to the output device, and the standard library's `String::from_utf8_lossy`,
which reads the state feed; `src/ring.rs` and `src/sse.rs` say what it relies on.
