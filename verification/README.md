# wry_bindgen

Runtime support for calling JavaScript from Rust through a webview, over a binary IPC
protocol, with the core of it verified by Verus.

## Layout

- `src/` — the verified library:
  - `wire`, `ipc`: the message format (header of three little-endian offsets, then the
    u32, u16, u8 and string buffers), the encoder and decoder, IPC messages;
  - `encode`, `heap_ref`, `object_store`, `closure`, `value`, `cast`, `convert`: how
    values and their types travel over the wire;
  - `batch`, `function`: the batch of operations, the heap and borrow ids kept in step
    with JavaScript, and the cache of type definitions;
  - `registry`, `js_code`, `text`: the initialization script built from the declared
    functions, inline modules and exported classes, and the generated JavaScript text;
  - `protocol`, `runtime`: the `wry://` protocol, the bookkeeping of the conversation
    between Rust and JavaScript, and the calls JavaScript makes into Rust;
  - `attrs`, `items`: the front end of the `#[wasm_bindgen]` macro — the attribute
    arguments folded into one record, and the imported and exported items with the
    decisions taken on them (kinds, names, receivers, errors). The Rust syntax that the
    items carry is a type parameter that the library passes through unread.
- `tests/` — tests of the library on concrete values.
- `app/` — the runtime around the library: thread-local state, channels, callbacks and
  closures, the registry collected from the bindings, the JavaScript operations on
  values, and the macro's reading of its input with the Rust syntax parser and its code
  generation (the output of `quote` templates).
