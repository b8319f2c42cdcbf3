# aidoku_sources

The logic of three French manga sources for the Aidoku reader — LelManga,
LelscanFR and MangaDex (French chapters) — as a library verified with Verus.

- `src/text.rs`: character-level string operations (trimming, Unicode
  whitespace, finding, replacing, splitting into words, integer text) with
  their specifications.
- `src/civil.rs`: day counts of Gregorian dates, with the calendar's laws
  (epoch, month lengths, leap years).
- `src/query.rs`, `src/lists.rs`: query parameters and lists without repeats.
- `src/model.rs`: the manga, chapter, filter and classification values.
- `src/lelmanga.rs`, `src/lelscanfr.rs`, `src/mangadex.rs`: each source's
  URLs, parsing of listing cards, chapter lists, page images, metadata,
  dates and API parameters, each with its contract and its laws.
- `app/`: the Aidoku glue — network requests, HTML element access, JSON
  decoding, floating-point chapter numbers, percent-encoding — which hands
  plain values to the library.
- `tests/`: tests on concrete values.
