# sockudo_ws (verified core)

The logic of a WebSocket library, written in Verus and proved against its
contracts:

- `utf8` — UTF-8 validation of text payloads, and the streaming check that
  accepts a valid prefix followed by an incomplete character (0–3 bytes).
- `mask` — frame masking (RFC 6455 §5.3), with the self-inverse law, and
  mask generation.
- `config` — configuration, defaults and presets.
- `close`, `message` — close codes and reasons; text, binary, ping, pong and
  close messages.
- `stats`, `topics`, `connection` — per-connection counters, local topic
  subscriptions, and the decisions of a connection's event loop.
- `server` — server options and bookkeeping.
- `pubsub` — the topic registry: subscribers, socket ids and the
  recipients of each publish.

`tests/` exercises the library; `app/` holds the Node.js (N-API) bindings
for configuration, messages, close reasons and pub/sub.
