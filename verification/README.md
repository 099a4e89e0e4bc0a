# doc_photos

Document photographs (passport, ID and visa pictures): masking the
background, laying copies out on a sheet, rendering the sheet and handing it
to a printer, with presets, calibration and per-country photo specs.

- `src/` is the library, written in Verus. Every function there carries a
  contract, and the properties that span several calls (undo takes back the
  last stroke, a calibration read gives back what was written, a child spec
  keeps its own id and fills gaps from its parent, a locked layout keeps its
  shape, ...) are stated and proved as `law_*` proof functions next to the
  code they speak of.
- Maps keyed by text (presets by name, calibrations by printer and paper,
  specs by id) are `store::KeyedStore`: a `Vec` of key and value pairs kept
  sorted by key with no key twice, as an invariant its operations keep. It
  stands where a `BTreeMap<String, _>` would, because Verus's specification
  of std's maps proves nothing useful about lookups under a `String` key; the
  store states the same lookups, updates and ascending key order over a
  `Map` view and proves them.
- `tests/` runs the library on concrete values.
- `app/` is the command-line program around it: file and model I/O, the
  floating-point geometry, image decoding and the face and background
  models. It calls into the library for every decision the library can
  state.
