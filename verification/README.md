# dandelion

A music-file organizer for WSL: it lists the music that lands in
`Music/Desconhecido`, moves or copies an album's tracks into
`Music/<Artista> - <Album>` under the names `01 - Artista - Nome.mp3`, lets the
user choose the track order one pick at a time, renumbers the files of a
folder, and clears the unsorted folder.

- `src/` is the verified library (Verus): path parts, the music filter and
  order, listing lines, the album plan, the interactive ordering session, the
  rename plan (through the `regex` crate) and the choice of the music folder.
- `app/` is the command-line program: argument parsing (`clap`), prompts
  (`inquire`), folder walking (`walkdir`) and the file operations.
- `tests/` runs the library, partly against the standard library's own path
  and string functions.
