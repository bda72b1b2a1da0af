# vortex-mod-soundcloud

The SoundCloud plugin for the Vortex download host, as a verified library and
a thin WASM shell.

- `src/` is the library. Verus proves each function against its contract.
  - `url_matcher`: which SoundCloud resource a URL names
  - `client_id`: bundle URLs on the homepage, client id in a bundle
  - `api`: request texts, resource types, choice of the transcoding
  - `artist`: an artist's tracks, page by page
  - `extractor`: the yt-dlp request and what yt-dlp leaves behind
  - `output`, `json`: JSON texts
  - `plugin_api`: the operations, as conversations with the host
  - `text`, `encoding`, `error`: text search, percent-encoding, errors
- `tests/` runs the library from outside.
- `app/` holds the exports and host functions of the WASM module.

Each operation is a sequence of steps. A step says what the host is to do
next; its `resume` takes the reply and returns the step after it. The shell
only carries steps out, so all decisions are in verified code. Every reply
leads to a step of lower rank, so every operation ends.

Functions named `law_…` state what holds across several functions.
