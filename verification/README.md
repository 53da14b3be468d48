# contrax_server

The core of a configuration-driven request-pipeline server, with its logic
stated in `requires` / `ensures` contracts and proved by Verus.

- `src/` is the verified library: the JSON document model (`json`, an object
  map kept in key order), compact JSON text (`json_text`), JSON pointers
  (`pointer`), the manifest value language `ctx(...)` and `{{ ctx(...) }}`
  templates (`resolver`), manifest step blocks (`manifest`), store mappings
  with `out(...)` pointers (`manifest_wrapper`, `wasm`), the HTTP fetch
  contract (`fetch`), step building, pipeline control and route responses
  (`routing`), route discovery rules (`workspace`), and input validation
  (`validation`, `users`, `errors`).
- `app/` is the server around it: manifest and workspace loading, the HTTP
  layer, the WebAssembly runtime and the outgoing HTTP client.
- `tests/` runs the library on concrete values.
