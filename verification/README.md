# skim

An HTTPS prober that reads massdns NDJSON, opens a TLS connection to each
resolved host, sends one `GET`, reads only the response's status line and
records whether the certificate chain would have been trusted.

- `src/` is the library, verified with Verus: the status-line parser
  (`status`), the per-probe state machine and request text (`probe`), the
  progress counters and resume position with their laws (`progress`), the
  choice of a host's A record (`input`), the output row (`report`), the
  certificate verdict (`tls`) and the run settings (`cli`).
- `app/` is the program around it: argument parsing, file and network I/O
  with tokio, the rustls verifier impls and client configurations, JSON in
  and out, and the floating-point rate figures of the log line.
- `tests/` exercises the library from outside.
