# kak-lsp, verified core

The logic of a Kakoune client for language servers, written in Verus: every
function in `src/` carries a contract over mathematical models (sequences of
chars, views of the data types) and is proved against it.

## Layout

- `src/` the verified library
  - `position.rs` LSP positions and ranges to Kakoune's and back, for UTF-8
    servers (bytes) and UTF-16 servers (code units; a char above U+FFFF
    counts two), with round-trip laws
  - `editor_request.rs` the header of an editor request, read from its words
  - `request_params.rs` the parameters of each method, read from the words
    after the header: positions, counted lists, code-action filters, and the
    fifo of a request the editor waits on
  - `legacy_config.rs` the legacy configuration's `language` table turned
    into server entries
  - `controller.rs` which handler takes a request, which servers are told of
    its buffer first, and which servers a request is routed to (and whether
    it waits for their initialization), and whether a request waits for a
    newer buffer
  - `batches.rs` requests sent to several servers and answered together
  - `outstanding.rs` the requests still being answered per server, method,
    file and client, and which one a newer request cancels
  - `editor_transport.rs` commands addressed to the client that asked, and
    how errors are shown
  - `text_edit.rs` LSP text edits: sorting, merging and dropping redundant
    ones, the Kakoune commands that apply them to a buffer, the minimal edit
    for a whole-buffer replacement, the edits of a line diff (which turn the
    old text into the new one), and applying edits to a text
  - `markdown.rs` markdown (as `pulldown-cmark` events) to Kakoune markup
  - `diagnostics.rs` the text of a diagnostic, related information, and the
    gutter flags of diagnostics and code lenses
  - `progress.rs` work-done progress tokens as a state machine, and the
    commands that show progress events
  - `capabilities.rs` what a server supports, and the report of the commands
    that each server supports
  - `language_features/` per-feature logic: document symbol outlines, text
    objects and breadcrumbs over symbols, semantic tokens and semantic
    highlighting faces, and the parameter types of server-specific requests
  - `settings.rs` flattened settings exploded into tables, and the sections
    of settings that servers are sent
  - `text_sync.rs`, `project_root.rs` which changes, saves and file events
    servers are told of, and which project root a file lies in
  - `rope.rs`, `strings.rs`, `util.rs`, `utf8_lemmas.rs` the text model
    (a `ropey::Rope` seen as its chars and lines), string building, quoting
    for Kakoune, and UTF-8 and UTF-16 lemmas
- `tests/` tests of the library on concrete values
- `app/` a small command-line front end: reading files and standard input,
  converting `lsp_types` values, the line diff, and writing results

The trusted items (calls into `ropey`, `pulldown-cmark`, `regex`, `glob`,
`unicode-width`, `toml` with `serde_json`, `url`, and std that the proofs rely on) are the functions marked `#[verifier::external_body]` and the
declarations marked `#[verifier::external_type_specification]`; each has a doc
comment that says what its contract claims of the outside code.
