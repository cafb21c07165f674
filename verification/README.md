# log4tc

A logging bridge for Beckhoff TwinCAT PLCs. PLCs write their log entries over
ADS (AMS/TCP, port 48898); the service decodes them, fills in the message
templates and hands OpenTelemetry-shaped records to its outputs.

## Layout

- `src/` — the library, verified with Verus:
  - `level.rs` — log levels and their OpenTelemetry severities.
  - `reader.rs`, `parser.rs`, `values.rs`, `errors.rs` — the binary ADS
    log-entry format: byte reader, typed values, entries, errors.
  - `encoding.rs`, `entry_stream.rs` — the bytes of an entry as the PLC
    writes it, and the laws that entries read back as written, also when
    several stand one after another in one buffer.
  - `formatter.rs`, `json.rs` — message templates and the values they are
    filled with.
  - `maps.rs` — insertion-ordered maps with unique keys.
  - `models.rs`, `timestamp.rs`, `pipeline.rs` — log entries, records, and
    the way from a parsed entry to a dispatched record.
  - `ams.rs` — AMS/TCP framing, AMS headers and the answers to ADS commands.
  - `service.rs` — answers to Windows service-control requests and the
    status report.
  - `text.rs` — decimal text and string helpers.
- `app/` — the program: settings, sockets, the dispatcher and its outputs,
  and the Windows service glue.
- `tests/` — tests of the library.
