# keytomusic

The mood engine of KeyToMusic, a soundboard that follows the mood of the manga
page being read, and the YouTube audio tools it uses.

`src/` is the library, verified with Verus: the mood vocabulary, the window
voting and selective repairs, the chapter pipeline, the visible-window
analysis, the mood director's decisions, the parsers of the vision model's
replies, the request texts, the llama-server runtime profile, the YouTube link
rules, the readers of yt-dlp's JSON output, profiles and discovery caches, and
the download cache index.

`app/` is the program around it: the local HTTP API, the llama-server process
and its HTTP requests, image preparation, the fractional scoring of the mood
director, settings and profiles on disk, and the yt-dlp, ffmpeg and model
downloads.

`tests/` runs the library on concrete values.
