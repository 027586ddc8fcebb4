# rustyclaw

The gateway logic of RustyClaw, an AI agent gateway, written in Verus: each
function states what it does in `requires`/`ensures`, and Verus proves it.

## Layout

- `src/` — the verified library
  - `text.rs`: string helpers over `Seq<char>` (trimming, searching, lines and
    words, decimal notation) shared by the other modules;
  - `chunking.rs`: per-messenger chunk limits and the message splitter, with
    the laws that chunks fit the limit and keep all the text in order;
  - `compaction.rs`: the four context-compaction strategies, importance
    scoring in exact ten-thousandths, and the laws that compaction never
    lengthens a history, keeps what it keeps in order, and keeps its ends;
  - `rate_limit.rs`: the per-IP token bucket in millionths of a token, with
    the laws on bursts at one instant and on the advertised retry wait;
  - `webhook.rs`: routing, authentication and payload checks of the webhook
    trigger endpoint, and the framing of its answers;
  - `mdns.rs`: what the gateway advertises over mDNS, and the arguments of
    the platform tools that advertise it;
  - `messengers.rs`: LINE and Feishu/Lark configuration, connection state and
    the plan of each send;
  - `skills.rs`: the skill tools' argument checks and answers;
  - `gmail.rs`, `message.rs`: Gmail configuration types and chat messages.
- `tests/` — tests run against the compiled library.
- `app/` — the runtime around it (TCP server, HTTP calls, processes, locks,
  clocks, JSON and configuration files); it takes no decision of its own.
