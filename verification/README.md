# simple-llm-proxy

The decision logic of a lightweight reverse proxy for OpenAI-compatible LLM
backends, written and proved in Verus, with the server around it.

The proxy sits in front of several LLM servers and exposes one API. Servers that
share GPUs form a GPU set, and a set works on one inference request at a time.
Hosts can register themselves as backends; their models are exposed under the
host's address and reach the host under its own ids.

- `src/` is the library. Every function states what it computes.
  - `model_scan`: finds the top-level `"model"` of a request body as it comes in.
  - `scan_laws`: what the scanner makes of a body, told by the body's structure.
  - `json`: JSON documents of `serde_json` and what is relied on of them.
  - `config`, `gpu_set`, `state`: the configuration and the state made from it.
  - `models`, `model_laws`: which models there are and who serves them.
  - `endpoints`, `auth`: what the proxy answers, and whom.
  - `proxy`, `query`, `routes`, `register`, `error`: what becomes of a request.
- `app/` is the server: HTTP, files, waiting for a free GPU set.
- `tests/` runs the library.
