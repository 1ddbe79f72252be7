# nexpack

nexpack packs an application into one self-describing bundle file (a stub,
a CBOR header after the `NX01` magic, BLAKE3-addressed EROFS layers, an
optional bootstrap block and trailer), keeps installed layers in a
content-addressed store, runs apps (in a bubblewrap sandbox with a seccomp
filter when asked to), and converts AppImages.

## Layout

- `src/` is the library, verified with Verus. Each public function states
  what it returns in its `ensures`, over spec functions and views; the laws
  that relate several functions are public proof functions (`lemma_*`).
  - `bundle`, `header`, `cbor`, `layer`, `bytes`: the bundle file format.
  - `verify`, `signing`, `sigstore`, `sbom`: digests, signatures, trust
    policy, the software bill of materials.
  - `store`, `update`, `order`: the layer store, update planning, sorting.
  - `permission`, `sandbox`, `bwrap`, `host`: permissions, the seccomp BPF
    program and its interpreter, the bubblewrap argument list.
  - `compat`: AppImage handling.
  - `daemon`: the mount table and overlay plans of the daemon.
  - `pack`, `cli`: assembling bundles and the command-line decisions.
  - Calls into outside crates (blake3, hex, ciborium, flate2, serde_json,
    sigstore) stand behind small `#[verifier::external_body]` wrappers whose
    doc comments say what their contracts claim.
- `app/` is the program around the library: argument parsing, files,
  network, mounts, processes and the daemon's socket loop.
- `tests/` runs the library on concrete values.
