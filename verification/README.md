# rsvelte

A small reactive UI framework for the browser (WebAssembly), with its logic
verified by Verus.

- `src/` is the verified library: dirty flags and tracked state (`dirty`),
  snippet arguments (`reactive`), route matching (`routing`), the keyed
  list update and its laws (`keyed`, `each_mount`), patch trees (`patch`),
  the demo pages that render as patch trees (`patch_page`,
  `split_flags_page`) or drive the DOM directly (`dom_page`), components
  (`components`) and text formatting (`text`).
- `app/` is the browser side: DOM elements, event listeners, the generic
  fragments (`#if`, `#each`, snippets), the wasm entry points and the
  serialisation of patch trees. It takes every decision from `src/`.
- `tests/` runs the library on concrete values.
