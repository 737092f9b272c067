# DiffKit

DiffKit compares what programs call: it builds the call trees of two versions
of a Rust or OCaml project and shows how they differ.

`src/` is the library. Everything in it is verified with Verus: each function
states what it gives back, and the laws that hold across functions are public
proof functions.

- `model`, `paths`, `text`, `sets`, `lists`, `spans`: the values that the rest
  works on.
- `graph`, `entries`, `roots`, `reach`, `trees`: from analyzed files to call
  trees.
- `diff`, `render`, `engine`: from call trees to reports, and what they look
  like. `diff_laws`, `site_laws`, `tree_laws` and `render_laws` hold what is
  true of them.
- `git`, `source`, `json`, `selection`, `plans`: which files, revisions and projects
  are compared.
- `language`, `findings`: the languages, and what compilers have to say before
  a file or a project can be analyzed.
- `rust`: Rust sources, what rustc says of the instances of a crate, how values
  of dynamic types flow through them, and how both are put together.
  `rust::syntax` reads sources with `syn`; it only changes their form.
- `ocaml`: OCaml sources, what the compiler says of their calls, and how
  functions flow through values, functors and modules.

`app/` is the command line: files, processes, Git, Cargo, Dune and rustc. The
part that runs rustc as a library needs the compiler's own crates; it is built
with `--cfg rustc_driver`.

`extras/ocaml/extract.ml` tells the calls in a `.cmt` file. It is compiled
against the OCaml compiler that the analyzed project uses.

`tests/` runs the library on values and sources.
