# chord_charts

A tool for chord charts: songs are written in a compact chart language,
divided into sections of lines, where each line holds bars of lyrics, chord
symbols, or chords over lyrics. A static site generator turns each chart into
an HTML page and a CBOR file, and builds song-list pages from the CBOR files,
transposing each song to the tonality the list asks for.

## Layout

- `src/` — the library, verified with Verus:
  - `tonic.rs`: pitch classes, note names and tonalities, with the laws that
    names read back as their pitch class;
  - `data.rs`: the song model (songs, sections, lines, bars, chord items)
    and its mathematical views;
  - `tree.rs`, `shb.rs`, `lst.rs`: the parse trees of charts and lists and
    the rules of their grammars;
  - `chart.rs`: building a song from the parse tree of a chart, and checking
    that a tree has the shape the grammar gives;
  - `songlist.rs`: building the entries of a song list;
  - `transpose.rs`: transposing chord items and whole songs, applying a
    function to every chord item, and the laws of transposition;
  - `render.rs`: the choices the HTML pages make about how a chord reads;
  - `config.rs`: the directories of a site;
  - `text.rs`: small text operations.
- `tests/` — tests of the library on concrete charts and songs.
- `app/` — the program: reading and writing files, parsing charts and lists
  with the pest grammars `shb.pest` and `lst.pest`, serializing songs with
  serde and CBOR, and the HTML templates written with `markup`.

The site's working directory holds `data/shb` (charts), `data/lst` (lists),
`data/cbor` (serialized songs), `song` and `list` (generated pages).
