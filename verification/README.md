# jevbus

A streaming event bus whose routing is decided by a probabilistic judge, with
its rules stated and proved in Verus.

An event carries a payload. A subscription describes in plain language the
events a consumer wants, with two thresholds. For every event a judge is asked
once and gives one probability per subscription; the thresholds turn each into
a disposition: deliver, review or drop. Every outcome is written to a ledger.

## Layout

`src/` is the verified library. It performs no I/O: where the bus has to wait
for the world, a step names the effect and consumes what came of it.

| Module | What it states |
|--------|----------------|
| `double`, `probability` | binary64 numbers by their bits; a probability lies in `[0, 1]` |
| `text`, `ordered`, `num`, `time` | text order, maps in key order, non-zero integers, spans of time |
| `event`, `question`, `subscription` | events and their lineage, questions and answers, thresholds |
| `routing` | subscriptions to questions, answers to verdicts |
| `judge`, `sink`, `source`, `ledger`, `delivery` | errors, rows and what is delivered |
| `lifecycle`, `breaker` | an event's phases, backoff, the circuit breaker |
| `walk` | one event through the judge |
| `dispatch` | one judged event to sinks, ledger and acknowledgement |
| `bus`, `blueprint`, `run`, `drive` | registration, a bus as data, a run and its loop |
| `link` | chaining one bus into another |
| `merge` | grouping events before they are judged |
| `cache_key`, `cache` | filing answers under a digest, least recently used first out |
| `jev` | the System One wire format and HTTP exchange |

Proof functions named `law_*` state what holds across functions: no event is
lost in merging, events are acknowledged in input order, each once and only
after its final row,
thresholds never need a new judgment, a read gives back a write until it
expires, and so on.

The `lru` and `sha2` crates, and three functions of the standard library, are
called through items marked `external_body` or `assume_specification`; the doc
comment of each says what is taken on trust.

`app/` is ordinary Rust around the library: the async traits, timers, channels,
locks, the HTTPS client and the JSON forms. `tests/` runs the library on
concrete values.
