# simulboot

Simulboot separates a user's *session* from the operating system instances it
runs on: hosts capture surfaces and stream them to a compositor, and the
compositor can suspend the session to a content-addressed XML image, park it
behind a small HTTP broker, and resume it elsewhere.

This crate is the session model and its protocol logic, written in Verus with
contracts and proofs.

## Layout

- `src/` — the verified library
  - `session`, `session_parse`, `xml`: the session image, its XML writer, and
    its reader (a token machine over the events of `quick-xml`).
  - `galois`, `galois_parse`, `coefficients`, `decimal`: the v1 image with
    per-surface coefficients, the abstraction `alpha` / concretion `gamma`
    between v0 and v1, the order on coefficients and their laws.
  - `roundtrip`, `roundtrip_v1`: what the readers give back of what the
    writers wrote, stated over the token streams.
  - `canonical`: what the canonical form determines (the surface ids, in
    order), used by the Galois laws.
  - `wire`, `host`, `compositor`, `strip`: wire framing, the decisions of the
    host and the compositor, and the ordered strip of surfaces with its focus.
  - `broker`, `resume`: request parsing and routing of the broker, and the
    client side of fetching an image by URL.
  - `digest`, `calendar`, `text`: SHA-256 and hex through `sha2` / `hex`,
    UTC timestamps, and string helpers.
- `tests/` — executable tests against the compiled library.
- `app/` — the program around it: command line, QUIC transport (`quinn`,
  `rustls`, `rcgen`), async runtimes, bincode/serde encoding, floating-point
  strip geometry and the renderer.
