# narou_rs

A verified library for a web-novel downloader: it keeps a library of novels
(records, lookup indexes, listing orders, inventories), reads site
definitions and the pages they describe (tables of contents, novel
information, section bodies), runs the `preprocess:` programs of site
definitions, plans updates through the Narou API, decides which sections a
download fetches and how its results are merged into the library, stores
illustrations and assembles animated ones, and encrypts stored login
credentials.

Layout:

- `src/` is the library, written in Verus: every function carries a
  contract that Verus proves. Calls into outside crates (regex, chrono, url,
  encoding_rs, sha2, crc32fast, zip, image, base64, chacha20poly1305,
  argon2, getrandom) go through small trusted wrappers whose contracts say
  what those crates do.
- `app/` is the ordinary Rust around it: file and network I/O, YAML and
  JSON, and the host the preprocess interpreter asks about URLs and JSON.
- `tests/` holds the tests, run against the compiled library.
