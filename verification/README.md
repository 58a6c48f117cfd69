# batteryremainingd

A daemon that estimates the time left on a laptop battery and answers
clients over a Unix socket, with its logic verified by Verus.

- `src/` — the verified library:
  - `text` — character helpers, decimal rendering, `u64` parsing, trimming;
  - `sample` — battery samples built from sysfs readings, status labels;
  - `trend` — the 60-sample window, smoothed power and power trend;
  - `estimate` — which estimate applies to a client's request;
  - `format` — the format-string renderer (`%p`, `%m`, `%H`, ...);
  - `protocol` — the client request and its decoding;
  - `args` — command-line parsing and the choice of mode;
  - `poller` — the daemon's sampling loop as steps.
- `app/main.rs` — the program: files, sockets, signals, threads, and the
  floating-point arithmetic of the final estimate.
- `tests/` — tests of the library.
