# reel

The rules of a media metadata editor: which edits of a file's tracks, container and
subtitles are allowed, what an edit asks of `ffmpeg` and `seconv`, how its result is checked,
and how it is put in place so that a failure loses nothing.

`src/` is the library. Every function in it states what it returns, and Verus proves it. The
library reads and writes no files: it takes what was read, and says what to do next.

- `probe`, `text`, `path`, `names`, `sets`, `order` hold the data that the rules speak of.
- `container`, `video`, `audio`, `subtitle`, `disposition`, `transcode` are the formats, and
  what each of them stores.
- `validate`, `conflicts`, `sources` decide whether an edit can be carried out.
- `plan`, `command`, `prepare`, `convert`, `tools` say how.
- `result`, `publication`, `duplicates`, `transaction` check what was written and put it in
  place, or everything back.
- `apply` and `session` join these: `session` is an edit in its stages, each of which can be
  reached only through the one before.
- `progress`, `reports` and `log` are what is shown and kept of an edit: `progress` has the
  words, `reports` the moments at which an edit tells something, and their order.
- `files` and `framecache` are the listing of a directory and the cache of rendered frames.

`app/` does the reading and writing: it probes files, runs the tools, watches the directory
and drives a session from stage to stage.

What is believed without proof is in `text`: `String::push`, and the names for what
`str::to_uppercase`, `str::to_lowercase` and `String::from_utf8_lossy` return.
