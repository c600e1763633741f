# simai_player

A player for simai rhythm-game charts (`maidata.txt`), drawn on a circular
field with Bevy.

`src/` is the library, verified with Verus:

- `text` — character classes of the chart grammar, digit runs and decimal
  numbers, splitting, white space, UTF-8 lengths, and the plain text that a
  chart reads from without stopping the program.
- `element` — the values a chart is read into: notes, slide shapes, chart
  events, why a note is refused and the message that says so.
- `note_parser` — one note, and what every note read keeps.
- `tap` — taps, holds and touches, stated as the grammar they accept.
- `slide` — slides and star-chained slides, likewise.
- `chart` — a whole chart: tempo and resolution markers, note groups, rests
  and warnings.
- `playback` — stepping through the events bar by bar and what each note
  becomes on screen.
- `mesh` — the triangle lists of the note meshes.
- `cli` — choosing the chart and song from the command line, and the
  messages of its errors.

`app/` is the program around it: the command line, file access, and the Bevy
systems that draw and move the notes.
