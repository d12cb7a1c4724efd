# xodr-qcr

Checks OpenDRIVE `.xodr` files for quality issues — 26 checkers covering
basic well-formedness, schema validation, semantic, geometry, performance and
smoothness rules — and reports them as text and as an `.xqar` XML file.
The exit code is `1` if any ERROR-level issue is found, `2` if the input
cannot be read, otherwise `0`.

## Layout

- `src/` — the verified library (Verus):
  - `xml.rs`: the parsed document as a sequence of elements (parsed by
    `roxmltree`), with navigation and xpaths;
  - `result.rs`: the checker results (bundle, checkers, issues, locations),
    their model and the laws of registering and reading them;
  - `version.rs`: rule uids and version expressions (compared by `semver`);
  - `opendrive/`: reading roads, lane sections, lanes and junctions
    (`utils.rs`, `models.rs`), the checker table and how a checker is
    prepared, run and closed (`checks/mod.rs`), the bundle's checkers in the
    order they run, no two sharing an id (`checks/bundle.rs`), and the checkers whose
    decisions are on the document structure (`checks/basic.rs`,
    `schema.rs` with the XSD validation by `xsd-schema`, `semantic.rs`, `lane_width.rs`, `new_lane.rs`);
  - `report/`: the text report and the `.xqar` report (written by
    `quick-xml`).
- `app/` — the command line program: file I/O (including the reads of the
  schema file and of the input for the XSD validation), and
  the floating-point road geometry with the checkers whose decisions compare
  floating-point values (geometry, performance, smoothness, lane access), and
  the zero widths handed to the library's lane width checkers.
- `tests/` — tests of the library.
