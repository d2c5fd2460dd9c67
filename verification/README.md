# ttk

A terminal toolkit: checksum listings (`md5sum`/`sha1sum` format), clean
copies of project trees, signed release archives, renaming files to a
numbered sequence, deleting every other file, MP3/MP4 conversion with
ffmpeg, and Markdown digests of the commits of many git repositories.

The library in `src/` holds the decisions and text processing of these
tasks, verified with Verus. Each public function states what it returns;
where the result goes through the machine's time zone or clock (local
times of commits and of a digest's bounds), the contract fixes what is
handed to chrono and what is done with its answer, and the functions that
take that answer as an argument (`instant_for`, `commits_of_lines`,
`log_bounds`, `log_args`) are stated exactly. The properties the tools promise (sorted and distinct rename targets
that keep their extensions, checksum lines that read back as written,
every commit counted once in a digest, ...) are proved as lemmas.

`app/` is the `ttk` program: argument parsing, the file system, the git and
ffmpeg processes and the terminal.

| module | what it decides |
|---|---|
| `text`, `paths`, `sort`, `path_order` | decimal/hex rendering, line splitting, path parts, lexicographic and path-component order |
| `deleter`, `rename` | which files go, and the new names |
| `sign`, `copy_clean`, `build_and_sign` | checksum lines, what a clean copy keeps, archive entry names |
| `media`, `mp3_compress`, `mp4_optimize` | which files to convert and the ffmpeg arguments |
| `time`, `git`, `digest`, `report`, `prompt`, `git_digest` | git log records, periods, author summaries, grouping and reports |
| `clone_repo` | the git steps of a clone and of a history reset |
