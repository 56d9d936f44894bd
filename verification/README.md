# wiki_parser

A wiki markup parser, verified with Verus: a page is turned into HTML line by
line, with inline markup (`''bold''`, `[[links]]`, `&br;`, or control bytes
in binary mode), block plugins (`#accordion`, `#calendar2`, `#comment`,
`#rtcomment`, `#include`, `#ls`/`#ls2`, `#marquee`, `#hr`, `#br`, alignment
prefixes) and page constants and variables (`#const`, `#let`,
`&const-use(..);`, `&let-use(..);`, `&relet(..);`).

- `src/` is the verified library. Each function's result is stated over
  spec functions (`parse_spec`, `inline_scan`, `binary_scan`,
  `variable_inline`, the plugins' `*_block` functions, ...). Calls into
  `regex`, `chrono`, `str::to_lowercase` and `String::from_utf8_lossy` stand
  behind small trusted wrappers. chrono's weekdays and day counts are stated
  as a proleptic Gregorian day count; lowercasing is stated on ASCII text;
  regex matches and the rest of lowercasing and lossy decoding are named.
- `tests/` runs the library on concrete pages.
- `app/` holds what the browser needs: the `wasm_bindgen` entry points, the
  requests to the comment service, and the serde forms of the options and of
  a comment.
