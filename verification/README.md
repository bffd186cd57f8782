# yueduqi

The back end of a multi-source novel reader, as a Verus-verified library
(`src/`) and a thin command-line program around it (`app/`).

Three book sources are supported: a JSON service mirrored on seven hosts
(guangyu), and two HTML sites (biquge900, GBK-encoded; qixinge, UTF-8). For
each the library builds the requests, reads the replies and pages into books,
chapter lists and chapter text, and cleans that text into `<p>` paragraphs.

- `text`, `scan`, `classes`, `patterns`: character sequences, scans, character
  classes, and the text patterns the sources strip, each with a specification
  of what it matches and a verified matcher.
- `matching`: normalized book names, fuzzy title matching, and filling in the
  covers one source lacks from another's results.
- `codec`, `dom`: the outside crates the sources need (`encoding_rs`,
  `urlencoding`, `scraper`, `regex-syntax`), behind trusted wrappers.
- `pages`, `parsers::{biquge, qixinge, guangyu}`: each source's requests and
  readers; `parsers` routes a request to a source.
- `commands`: the checks on a command's arguments.
- `app/`: the network requests (reqwest, tokio), JSON conversion, and the
  command line.
