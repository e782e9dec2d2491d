# piano_waterfall

The logic of a piano learning game that shows a MIDI file as notes falling
onto a keyboard, verified with Verus.

- `src/` is the verified library:
  - `icons` — the icon-font glyphs and the picture of each track;
  - `midi_picker` — which files of the library folder are listed and in
    which order, and the loading state of the menu;
  - `select_song`, `list_btn` — texts and looks of the library page;
  - `tracks` — the cards of the track page, their order, the grid layout, the
    cell of each card and the changes the page's buttons make;
  - `stats` — the record of a play, the ranking of plays, their labels (the
    date column included, read in the local time zone through chrono) and the
    name of the file that stores them;
  - `calendar` — the proleptic Gregorian calendar counted in days from 1970;
  - `bottom_bar` — the buttons of the library and score pages' bottom bars;
  - `playing` — the decisions of the playing scene (glows, struck notes,
    looping, finishing, shortcuts);
  - `glow` — whether the glow exists, and the per-key frame flags of the glow;
  - `text`, `seq_facts` — string helpers and sequence lemmas they share.
- `app/` is the rest: disk, dialogs, JSON, the clock, the `f32` animation and
  score arithmetic, window events, GPU vertex layout, and a text front end.
- `tests/` runs the library on concrete values.
