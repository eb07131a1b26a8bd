# finder

The logic of Finder, the TontooOS file manager, as a library verified
with Verus, plus the program that draws the window around it.

- `src/` is the verified library:
  - `text`, `path`: character sequences, `Path`-style file names, stems,
    extensions and joins.
  - `order`: the stable sort that orders listings and snapshots.
  - `model`: listing a folder (directories first, case-insensitive,
    `Zone.Identifier` markers skipped), shown names, file kinds, document
    icons, inline-rename names, free names (`Docs (2)`), the search
    filter, the list's size and date texts, the status line's free-space
    text, and the change-detection snapshot with its comparison.
  - `prefs`: the view mode and its stored form.
  - `views::finder`: navigation history, the refresh tick's decision,
    artwork plans, context menus and what their actions do to the
    rename session, activation and smaller view rules.
  - `icons`: resource and cache paths, app-bundle icon lookup, `ffmpeg`
    arguments and the rounded-corner mask on an RGBA buffer.
- `app/` reads the disk (names, sizes, times, free space), converts
  times to the local time zone, probes files, decodes and scales images,
  runs `ffmpeg`, watches the folder and draws the GTK window, acting on
  the library's decisions.
- `tests/` runs the library on concrete values.
