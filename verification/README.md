# ccc

The preprocessing and link-stage logic of a C compiler driver, written in
Verus: the functions in `src/` carry contracts that Verus proves, apart
from the trusted wrappers named below.

## Layout

- `src/pp/`: C preprocessing. The lexer and line splicing, identifier
  canonicalization, macro tables and definitions, argument collection,
  argument substitution (`#`, `##`, placemarkers, `__VA_ARGS__`), the
  dynamic macros, each step of macro expansion with hide sets and
  expansion depths (`expand.rs`), how a file's lines are taken in turn
  with conditional groups (`lines.rs`), conditional expressions,
  directives, pragmas, `#line`, header search and include nesting, and the
  rendering of output and Make dependencies.
- `src/link/`: the link stage. Driver command lines, toolchain resolution
  (which probes a resolution runs, in which order, and what it keeps),
  toolchain fingerprints, object and archive inspection, the simulated
  scan of a link line (`scan.rs`), runtime-helper link plans, artifact bundles, the order of the packaging steps
  (`packaging.rs`) and generated-assembly protocols.
- `src/text.rs`: character, UTF-8 and number-text helpers shared by both.
- `tests/`: tests run against the compiled library.
- `app/`: what the library does not hold: running driver probes as
  processes, reading files, temporary-file cleanup and the floating-point
  parts; and the loops that repeat the library's steps to the end: macro
  expansion (`app/expand.rs`) and the preprocessing driver
  (`app/preprocess.rs`); the toolchain resolver (`app/resolver.rs`) and
  packaging (`app/packaging.rs`) run the library's steps with real
  processes and files. An expansion ends because every step emits a token
  or replaces one by deeper tokens, an ordering over the whole stream that
  no fixed-length `decreases` measure states, so those loops are not
  verified. The link driver (`app/link.rs`) walks the link line with the
  library's `link_step`, reads each input for `scan_link_input`, replays
  link groups until `same_as` reports no change, and runs the driver with
  the arguments that `link_arguments` orders.

Calls into the `object` and `sha2` crates, and into parts of std that vstd
does not specify, go through small trusted wrappers whose doc comments say
what each one assumes.
