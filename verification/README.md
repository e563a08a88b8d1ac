# HarborFeed

HarborFeed parses operational maritime feeds and audits them: NMEA 0183 GPS
sentences, AIS sentences with their six-bit payloads, UN/EDIFACT interchanges,
and tide station CSV exports. It turns them into normalized events (vessel
positions and static data, GPS fixes, cargo movements, port calls, tide
readings, message summaries) and runs consistency checks over the result.

The library under `src/` is written in Verus: every function states what it
returns in its contract, and the contracts are proved.

- `text` – character-level helpers (trimming, splitting, UTF-8 widths,
  decimal numbers) with their specifications.
- `bitcursor` – six-bit AIS armoring, a big-endian bit reader over the
  unpacked payload, and the NMEA and digest checksums.
- `nmea`, `ais` – sentence framing and checksum, the GPS sentence types, and
  the AIS message types.
- `edifact` – service string advice, segments, messages, and the cargo
  movements and port calls they carry.
- `tide_csv` – tide exports with quoted fields and named columns.
- `normalize` – whole feeds, mixed line by line or of one format.
- `model` – the events, the feed, and the digest material of a feed.
- `validate` – the audit rules.
- `lifecycle` – the lane decision of the lifecycle check.

Quantities that a feed writes as decimal text (GPS coordinates, speeds and
altitudes of fixes, tide levels, cargo mass) are kept as that text, and AIS
quantities as the integers of the payload; AIS coordinates and speeds are
turned into the bits of `f64` and `f32` values by verified code.

`app/` is the command-line program: it reads the input, works out the
floating-point values that the library leaves to its caller (GPS coordinates
and tide residuals), and prints the audit.
