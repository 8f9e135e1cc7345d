# imdbdownloader

Downloads movies and TV shows by IMDb, Animetsu, Anikoto or Miruro ID with
`yt-dlp` and `ffmpeg`, using an API for metadata, streams and subtitles.

The decisions the program makes are a library verified with Verus (`src/`):

- `text` — whitespace trimming, decimal numbers, searches, byte-length cuts.
- `api` — cleaning API answers, safe file names, show detection, media ID parts, metadata fallback, API paths.
- `config` — options, settings, API key choice, subtitle ID, required tools.
- `types` — the shared state of a bulk download (tasks and workers).
- `worker` — taking tasks, recording results, what a worker does next, and
  what holds over a whole run of workers.
- `downloader` — season ordering, episode planning, paths, the `yt-dlp`
  command line, retries and progress lines.
- `progress` — the progress frame drawn on the terminal.
- `subtitles` — choosing, naming and embedding subtitles.
- `unmask` — detecting and cutting out an image wrapper around a stream.
- `ram` — naming the memory-backed disk.

`app/` is the command line program around it: option parsing, HTTP requests,
JSON conversion, files, threads and the outside programs.
