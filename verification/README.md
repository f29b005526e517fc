# spdm_measurements

Responder side of the SPDM measurement services: the `GET_MEASUREMENTS` /
`MEASUREMENTS` exchange and the measurement summary hash.

`src/` decides. An exchange and a summary are state machines: each step takes
what the platform replied and says what it is to do next. Every function there
is verified with Verus, but for two wrappers in `wire` whose contracts are
trusted: `ref_pair_from_prefix` and `le_u16_as_bytes`, which call `zerocopy`.

- `request`, `response`, `block`, `signing`, `wire`, `buffer`: what requests
  say, and how responses are laid out.
- `exchange`, `summary`: the two machines.
- `exchange_laws`, `summary_laws`: what holds of whole runs, whatever the
  platform replies.

`app/` performs the actions on a platform: transcripts, nonces, buffers,
measurement values, digests, signatures, sending.
