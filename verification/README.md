# windows-iso-downloader

Download Windows 10 and Windows 11 ISOs directly from Microsoft's servers.

The library under `src/` is written in Verus and holds the logic with its
contracts and proofs:

- `edition` – edition aliases, language choice, file names from links;
- `page`, `pattern`, `text` – reading the download page and its script bundle;
- `hashes` – the page's SHA-256 table and the lookup of a download's digest;
- `client` – the requests of a download session and what the API answers yield;
- `download` – the download plan (byte ranges) and SHA-256 streaming;
- `service` – the decisions of the HTTP API (parameters, links answer, cache);
- `cli` – the decisions of the command-line downloader.

`app/` is the program around it: HTTP with reqwest, the terminal wizard, the
axum server with its SQLite cache, and the JavaScript interface.  Run as
`wisodown` it is the downloader; run as `wisodown-server` it serves the API.
