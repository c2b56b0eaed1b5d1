# call_platform

Verified building blocks of a provider-neutral voice platform, written in
Verus. Every executable function in `src/` carries a contract that Verus
proves; the laws of the library are public proof functions named `law_*`.

Modules:

- `call_core` — call, leg, stream, event, bridge and command identifiers and
  the call lifecycle graph.
- `call_api` — the bounded call-control registry: permissions, idempotent
  commands, audit records, event replay and reclamation.
- `bridge` — the caller/human bridge registry with exclusive endpoints.
- `runtime` — keeps bridges in step with call lifecycle events.
- `engine` — SIP message rules: header lookup, transaction branches, dialog
  tags, responses, ACKs and the commands responses drive.
- `dispatch` — the call engine's decisions: request routing, which
  transaction a response or CANCEL belongs to, final-response timers and
  which calls a poll fails.
- `dtmf`, `relay` — RFC 4733 telephone events and their relay clocks.
- `media`, `media_time`, `jitter`, `recording` — bounded media queues, G.711,
  the fixed-delay jitter buffer and PCM recording.
- `session` — media-session bounds, receiver-report loss figures, frame
  checks before RTP and the DTMF notification inbox.
- `negotiation` — audio offer/answer selection between session descriptions.
- `trace` — W3C trace context tied to call identifiers.
- `differential`, `normalize` — normalized observations, the oracle fixture
  format, the comparator and the aliased facts a replay records.
- `smoke` — bounds and bookkeeping of the load, media, WebSocket, combined and
  soak runs.
- `text` — shared text primitives.

The SIP transaction and dialog machines, the RTP and RTCP sessions, the SDP
parser and the WebSocket media framing are separate components that this
library does not contain. Where the platform's logic depends on them, the
library takes what they report as plain values (a transaction's outcome, a
session's counters, the negotiated direction of two descriptions) and decides
the rest; the orchestration that calls those components lives with them.

`tests/` exercises the library on concrete values.
