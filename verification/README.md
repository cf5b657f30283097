# sidecardos_host

The Windows host of SidecarDOS, which extends a Windows desktop onto an iPad over
QUIC. The wire protocol, pairing, session, capture-worker and topology decisions are a
library verified with Verus. A Windows program around it performs the device, encoder,
network and UI work those decisions ask for, and keeps the input mapping that works on
binary32 coordinates.

## Layout

- `src/` — the verified library.
  - `protocol` — the binary wire format: field encodings, the bounds-checked
    reader, the packet envelope, every message and its round trip, version
    negotiation and replay protection.
  - `session` — the authentication exchange (hello, challenge, answer) and the
    authenticated link that alone reads the client's capabilities, the running
    session's control stream (replay and token checks, keyframe spacing), the display reservation after a
    disconnect, the capture worker's step function (monitor, encoder generation,
    bitrate, frame numbering, startup timeout), tray commands, keyframe rate limiting
    and the choice of GPU slots to encode.
  - `pairing` — pairing proofs (HMAC-SHA256 over a bound context), the host's
    self-signed identity, its stored hexadecimal form, and the set of trusted devices.
  - `display` — display modes derived from the client's capabilities, with the
    host's binary64 scaling modelled exactly on integers.
  - `encoder` — H.264 Annex B access units and the repetition of SPS/PPS on IDRs.
  - `input` — HID-to-scan-code mapping and the keyboard, mouse-button and touch
    state that the injector keeps.
  - `network` — control-stream framing and sequencing, and the fragmentation of
    frames into datagrams.
  - `telemetry` — adaptive bitrate.
  - `topology` — placement of the virtual display and the bounded retry policy.
  - `config` — configuration defaults and limits.
- `tests/` — tests of the library.
- `app/` — the Windows program: QUIC transport, mDNS, the indirect display driver,
  the Media Foundation encoder bridge, input injection, the tray UI and storage.

Calls into `sha2`, `hmac`, `hex`, `rand` and `rcgen`, and `String::from_utf8`, are made in
`src/` through small wrappers whose contracts are trusted; each wrapper's doc comment
says what is assumed of the outside function.
