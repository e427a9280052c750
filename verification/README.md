# project-analyzer

A compiler driver that looks at the crate it compiles. It prints which modules
use which others, one line for each `use` declaration and each definition of the
crate that it names, and then which of the crate's coroutines are large.

It also holds what collects the crate's roots: the functions, statics and blocks
of assembly that code is generated for whether or not anything uses them. The
driver does not print them: `snapshot::collect_roots` is there for analyses that
start from them.

`src/` is the library. It takes what the compiler knows as plain values and
decides, with proofs, what follows from it:

- `def`, `span`: names of definitions, places in the source.
- `deps`: the dependencies that `use` declarations make.
- `tcx`: what is known of a crate; `validate`: whether it is complete.
- `mono`, `fx`: the items that code is generated for, each once, in the order in
  which they were first asked for. The collection is an `FxIndexMap`; `fx` states
  what is relied on of it.
- `collect`: what constants, uses of functions and drops ask for.
- `roots`: the roots of a crate, with either of two strategies; `laws`: what holds
  of them in every crate.
- `coroutine`: how large the state of an `async fn` is expected to be, whether a
  given size can be right, and which coroutines are worth a report.

`app/` is the driver around it: it asks the compiler, writes its answers down as
those plain values, and prints. It needs the compiler's own crates, that is a
nightly toolchain with the `rustc-dev` component.
