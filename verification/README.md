# bw_build_overlay

The back end of a StarCraft: Brood War build-order overlay: it keeps the
user's builds and settings, imports build orders from Liquipedia's
MediaWiki pages, and keeps imported builds current.

The library in `src/` is verified with Verus:

- `text`, `order`, `pattern`, `json` — characters and strings, the order
  strings sort in, regular expressions (through the `regex` crate) and
  JSON values as the stored files hold them.
- `types`, `utils` — builds and the other records, matchups, slugs and
  "supply - action" steps.
- `liquipedia::parser` — reading a page's wikitext: infobox, `{{build}}`
  templates, headings, bullet lists, races, opponent and difficulty.
- `liquipedia::api`, `liquipedia::response` — page URLs and titles,
  percent-encoding, and what the client makes of the API's answers.
- `liquipedia::import`, `liquipedia::updates` — builds from pages, merging
  into the stored builds, bulk imports over categories, update checks and
  refreshes.
- `storage` — schema migration of stored builds, settings merges, backup
  names.
- `window` — hotkeys and the window commands' decisions.

`app/` is the program around it: file and network I/O, the serialisable
forms of the records, and a command line that runs one command of the
front end's surface at a time.
