# ferrox

The verified core of a local language-model server, in Rust with
[Verus](https://github.com/verus-lang/verus): the block-quantized weight
layouts its kernels read, and the rules its request paths follow.

Every function under `src/` is checked against its contract. Floating point,
threads, sockets and the model engines are outside it, in `app/`.

## Layout

| Module | What it settles |
|---|---|
| `quant` | Q4_K, Q5_K, Q6_K, Q8_0 and Q4_0 blocks: their canonical bytes, the interleaved layouts rows are packed into, the integer sums each kernel takes, and that no packing or grouping changes a product; laying out fitted Q4_K blocks |
| `generate`, `generation` | one request: its prompt, the passes that run it, the decode loop, what is stored of it |
| `answer` | what a request is answered, as a function of the request alone |
| `stop` | stop strings over a stream of text pieces |
| `batch` | the continuous-batching scheduler: queue, block budget, admission, chunked prefill, decode rows, cancellation, and what a run of it comes to for one request |
| `budget` | context ceilings and the limits derived from a priced model |
| `sampling`, `sample_step` | sampler settings and which path a step takes |
| `chat`, `chat_template` | messages and how they are rendered into a prompt |
| `response_cache` | cache keys, expiry and eviction of whole answers |
| `anthropic`, `openai_extra`, `grammar_request`, `api`, `json` | what requests say and how they are refused |
| `hub`, `glob` | naming, listing and resuming downloads |
| `model` | what a checkpoint's metadata means |
| `limits`, `sse`, `stats` | bearer tokens, send deadlines, the ring of recent requests |
| `text` | the text functions the rest is stated over |

Public proof functions whose names begin with `law_` state what holds across
several functions or calls.

Floating-point values cross the boundary as raw bits: the library carries,
compares and lays them out, and never computes with them. The kernels return
their integer partial sums in the order they are consumed; `app/fold.rs`
scales and adds them.

What is taken on trust is in two places: `json.rs` (parsing and reading
`serde_json` values) and `quoted` in `api.rs` (the `Debug` rendering of a
string).

`tests/` runs the library from outside. `app/` is the server program.
