# swc_plugin_formatjs

The message-descriptor logic of a formatjs transform for SWC, verified with
Verus.

- `src/` is the verified library:
  - `whitespace` normalizes message text (trim, collapse whitespace runs);
  - `hash` is the grammar of id interpolation patterns
    (`[<hashType>:(hash|contenthash):<digestType>:<length>]`), their
    validation and their interpolation with content digests;
  - `digest` holds the SHA-512 and base64 calls (through `sha2` and
    `base64`) and lower-case hex;
  - `config` holds the options, their validation and the names of the
    message functions and components;
  - `ast` is the part of the JavaScript syntax tree the transform reads and
    writes; `descriptor`, `extract`, `jsx` and `call` rewrite message
    descriptors in object literals, `defineMessages` bags, call arguments
    and JSX attributes.
- `app/` is the SWC glue: options read from JSON, the `VisitMut` visitor
  that converts SWC nodes to the library's model and writes the results
  back, diagnostics, and `process_transform`, which runs the transform on
  a program given its file name and raw JSON options (the WASI plugin
  wrapper around it, `#[plugin_transform]`, needs `swc_core`'s plugin
  feature and is not built here).
- `tests/` runs the library, and checks its character classes and token
  grammar against the `regex` crate and `char::is_whitespace`.
