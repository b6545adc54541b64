# codez-llm-switch

A client that only speaks the Responses protocol can be served by upstreams that do not. The switch
decides which requests a configured provider takes over, translates them to the protocol of that
provider (Chat Completions or Anthropic Messages), and turns the stream that comes back into the
events that the client expects.

## Layout

- `src/` is the library. It only computes, and Verus proves all of it.
  - `config`, `table`: what a configuration file amounts to.
  - `purpose`, `namespace`, `route`: which provider serves a request.
  - `pipeline`, `transform`, `run`, `http`: settings, address and headers of a request.
  - `connector`: the request in the protocol of the upstream (`chat_req`, `reorder`,
    `anthropic_req`, `content`), and the state machines that read its stream (`chat_sse`,
    `anthropic_sse`).
  - `sse`: from the bytes of a stream to its records.
  - `json`, `text`, `order`, `protocol`: the values that all of this works on.
  - `laws`: what holds of the library as a whole.
- `app/` reads files and the environment, sends requests and receives streams.
- `tests/` runs the library on concrete values.

## What is not proved

`serde_json`, `http` and a few functions of the standard library are called through small functions
marked `external_body`; the clone of a JSON value has its contract by `assume_specification`. Each
says in its comment what is taken for granted.
