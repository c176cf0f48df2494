# llm_worker

Local LLM inference, and a worker that serves it in the OpenAI
chat-completions format. The decisions are a library, verified with
[Verus](https://github.com/verus-lang/verus); what touches a GPU, a socket or a
clock stands around it.

```
src/engine/      who gets a slot, what goes into a batch, when a generation
                 ends, what its caller is told. No model.
src/protocol/    what a client sends and what it is answered. No socket.
src/worker/      one job, from its lane to its response.
src/ingress.rs   the routes of a front door.
src/console.rs   one generation on a terminal.
app/             the program: the model on its thread, channels, the ring.
tests/           the library, run.
```

## The engine

One shared context decodes every active request together, one token each per
step. `engine::Runtime` is the loop: `task()` says what to do next, and
`report()` takes in what came of it. It is a state machine over plain values,
so it runs the same against a GPU and against a script.

What is proved of it, among other things:

- the count in flight is exactly the requests that wait, those that run and the
  one being ingested, after every run, however long;
- every accepted request is answered once, and all of them by the time the
  loop stops;
- a caller whose channel stays open hears text, then one last event, and nothing
  after it; unless the generation failed, the text is what the bytes of every
  token generated for it spell;
- a generation says no more than it was asked for and no more than its context
  holds, and its last event says which of the two gave out;
- that the model was done, that the generation was cancelled or that it failed
  is said only where that is what happened;
- whether a slot takes part in a step is its own affair: one slow reader holds
  up nobody else;
- a cancelled generation gives its slot back at the next step.

`engine/laws.rs`, `engine/caller.rs` and `engine/runtime.rs` hold the
statements.

## A job

`worker::Job` takes one request from the claim to the end of its response, and
`task()` says what comes next. A request that cannot be read is never submitted,
a response is opened before the first piece of it, nothing follows the event
that ends it, and whatever becomes of it, its client gets one response
(`worker/job.rs`). The names of completions come from `worker::CompletionIds`:
each sorts after all those before it, whatever the clock reads
(`worker/ids.rs`).

## On the wire

`GET /` is a chat page, `GET /health` reports the engine's own capacity and
`GET /v1/models` names the model. `POST /v1/chat/completions` is for the ring.

`stream: true` is answered with `text/event-stream` chunks ending in
`data: [DONE]`, anything else with one `chat.completion` JSON body. A client
that splits a stream at its blank lines gets back the chunks it was made of,
whatever the text holds (`protocol/framing.rs`, `worker/laws.rs`).

Beyond the standard fields, `think` (or `chat_template_kwargs.enable_thinking`)
lets the model emit its reasoning block.

## Taken on trust

The functions of other crates that the library calls stand behind items with a
doc comment that says what is claimed of them: `serde_json` for strings
(`json.rs`), `encoding_rs` for token bytes (`engine/pieces.rs`), `bytes` for
request bodies (`worker/body.rs`), and the standard library's clock
(`clock.rs`).
