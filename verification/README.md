# url_translator

A library for translating web pages and whole documentation sites, with
its behaviour stated in contracts and proved with Verus.

`src/` holds the logic:

- `config` — build-time environment settings, feature switches with their
  JSON form, runtime settings and the whole application configuration.
- `services` — splitting long texts for DeepLX and reading its replies,
  the reader service's replies, protecting code and other technical
  content from translation and putting it back, file naming, the
  translation history (search, sort, exports, archives), batch
  translation of a documentation site (link extraction, titles, file and
  folder names, archives), previews, request pacing and retries, and the
  backend API's addresses and messages.
- `components`, `hooks` — the computations behind the pages: notification
  lists, view modes, side-by-side line pairs, titles and archive names.
- `error` — the application's errors, what the user is told about them,
  and the error display's state.
- `text`, `num`, `urls`, `clock`, `ids`, `archive` — the string and number
  functions the rest is stated with, and the calls into `url`, `chrono`,
  `uuid`, `tar` and `flate2`.

`app/` is the program around it: browser storage, HTTP requests, the
browser clock, and the serde forms of the stored and exchanged values.
`tests/` runs the library on concrete values.
