# StaticDock

A small static resource server: it serves a folder over HTTP with directory
listings, byte ranges, entity tags, QR codes for sharing addresses, and a
chunked upload API.

The request logic is a Verus library whose functions carry `requires` /
`ensures` contracts proved by Verus; the program around it holds the sockets,
threads, files and console.

## Layout

- `src/` — the verified library:
  - `text`, `decimal`, `sorting`, `strmap`: character sequences, numerals,
    stable sorting and a string map, with the spec functions the contracts use;
  - `percent`, `escape`: percent-coding and JSON/HTML/JavaScript escaping;
  - `request`, `http`, `range`, `mime`, `http_date`: request targets and paths
    under the root, request heads and response heads, ranges, entity tags and
    file answers, content types, dates;
  - `listing`, `api`, `qr`: directory listings (JSON and HTML), the info and
    QR endpoints, SVG and BMP drawings of QR codes from `qrcodegen`;
  - `serve`: the questions to the file system, in order, that decide how a
    path under the root is answered;
  - `upload`, `paths`: the upload API's decisions, metadata file format,
    chunk naming and merge order;
  - `config`, `net`: command-line options and defaults, listener ports, LAN
    address discovery output.
- `app/` — the server program: `main`, worker threads, socket and file I/O.
- `tests/` — tests that run the library on concrete values.

Each `law_*` proof function states a property that holds across calls or for
all inputs, such as that a resolved path stays under the root, that percent
decoding undoes percent encoding, that upload metadata reads back as written,
or that a request carrying a file's entity tag is answered `304`.
