# LLM Gateway

A gateway in front of an OpenAI-compatible server. It shares a fixed number of
inference slots among projects: each project has a priority tier, a share
within its tier and a cap on the slots it may hold. Requests wait in one queue
per project; when all slots are taken and a more important project waits, the
newest request of the least important project is evicted.

The decisions are a library whose behaviour is stated in contracts and proved
by Verus. The program around it does the input and output.

## Layout

| Path | What it holds |
|------|---------------|
| `src/config.rs` | the configuration and its checks |
| `src/schedule.rs` | the scheduling rules over plain sequences |
| `src/queue.rs` | the queues, and how slots are handed out and given back |
| `src/headers.rs`, `src/handlers.rs` | header fields, credentials, replies, status |
| `src/chat.rs` | the course of one chat completion |
| `src/sse.rs` | the events of a streamed response |
| `src/metrics.rs` | which measurements change |
| `src/text.rs`, `src/name_map.rs` | text helpers, and a map from names to values |
| `src/scheduling_laws.rs`, `src/config_laws.rs`, `src/request_laws.rs`, `src/stream_laws.rs` | what holds of the whole |
| `tests/` | tests that run the library |
| `app/` | the program: settings, tasks, endpoints, measurements |

## What is proved

- No project ever holds more slots than its cap, all projects together never
  hold more than there are, and the scheduler counts exactly the slots held.
- Tiers are strict: a tier is fully served before the next one gets any slots.
  Within a tier each project gets as much of the draw as its share says.
- Each queue is first in, first out. Eviction takes the newest request of the
  least important project, and nothing else.
- In a configuration that passes, every API key leads to its one project.
- Each way in which a request can end has its reply and its measurements.
- Where each wait of a request takes no longer than the library says is left of
  its time, all its waits together stay within its time. The timers that end a
  wait are in `app/`.
- What a client gets of a stream does not depend on where the stream was cut.

## What is taken on trust

The contracts of these functions are stated, not proved: drawing a random
number (`rand`), making a request id (`uuid`), reading header fields (`http`),
reading bytes as text (`String::from_utf8_lossy`), and writing the measurements
out (`prometheus`).
