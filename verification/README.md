# pic_viewer

The verified core of a self-hosted picture browser: a folder is hosted, and
its images are browsed, checked, rated, tagged, rotated and exported; text
files can be opened in an editor.

- `src/` is the library, verified with Verus.
  - Paths are kept inside the hosted root (`sandbox`, `path`), file kinds are
    sniffed from their headers (`sniff`), listings and image scans are
    ordered and capped (`list`).
  - Tag and star filters and the metadata index decide what the gallery
    shows (`filter`, `index`, `filter_bar`); merging tag lists is idempotent
    (`tag_laws`). The metadata index is an in-memory list of rows, one per
    image, whose every operation is specified (`index`); finished downloads
    wait in a map keyed by their number (`downloads`).
  - Ratings and tags are read from and written into metadata (`rating`,
    `exif`): what is written reads back. Images are rotated and converted
    (`imaging`).
  - Exports and batch marks are planned and reported (`export`, `batch`,
    `actions`, `downloads`).
  - The state of the browser's panes changes with every action: the
    explorer (`explorer`), the viewer and its filmstrip (`viewer`), the text
    editor (`editor`) and the filter bar (`filter_bar`). These are the
    decisions of the web page, as functions from state and event to the next
    state; the page that renders them and feeds them events is not part of
    this crate.
  - `laws` states the properties that tie these together.
- `app/` is the HTTP API around it: file-system access, streaming, the
  image proxy and the download store. It serves the page's requests; the
  web page itself is not included.
- `tests/` exercises the library on concrete values.

Some functions that call into the `image` and `little_exif` crates
(`exif::edit_metadata`, `imaging::rotated_bytes`, `imaging::converted_bytes`)
require that those crates return on what they are handed: their decoders,
encoders and metadata readers and writers may panic on some malformed files.
No function can test that beforehand, so callers (the HTTP API included)
call them as they are and, on such a file, fail as the crates do.
