# thunder

A chat-completion proxy that knows which agent program each request belongs to. It counts the
tokens that programs hold on the workers, and resumes paused programs when room comes free, each
on the worker that it fits best.

`src/` is the library. Its functions carry contracts and are verified by Verus. What it calls
outside is declared with contracts that Verus believes without proof: functions of `serde_json`
(in `json`), `dashmap` (in `registry`), `tokio` (in `program` and `wake`) and the standard library
(in `clock` and `text`). The doc comment of each says what is claimed of it.

| Module | What it holds |
|---|---|
| `program`, `registry` | programs, their transitions, and all programs by their ids |
| `router` | which worker gets a request, and what requests and answers mean for a program |
| `proxy`, `usage` | what is sent to a worker, what is answered for its reply, and the usage in it |
| `stream` | what the server-sent events of a streamed completion say about its progress |
| `metrics`, `backend` | what a worker reports of its cache, and the room that is left on it |
| `scheduler` | which paused programs are resumed, and where |
| `one_backend` | what a pass of the scheduler comes to where there is one backend |
| `wake` | receipts for waking the requests of resumed programs |
| `profile` | the timings of a request |
| `order`, `text`, `numbers`, `json`, `clock` | sorting, text, arithmetic, JSON documents, time |

`app/` is the ordinary Rust around it: HTTP, the scheduler's loop, the floating-point weights of
acting programs, and the serialized views.
