# Native Machine

A bounded, CPU-native operation runtime, verified with Verus.

A plan source is compiled into fixed-width operation records and published as
an immutable artifact. The runtime validates an artifact, compiles its records
once into a plan of fixed capacity, and executes the plan over caller-owned
buffers, dispatching to admitted kernels where the plan asks for them.

## Layout

- `src/` is the library. Every function in it has a contract that Verus proves.
  Values are IEEE-754 singles as bit patterns; their arithmetic is handed in by
  the caller. Digests and JSON addresses come from `sha2` and `uor-addr`,
  through the two wrappers in `src/digest.rs`, whose contracts are assumed, as
  is that of `String::push` in `src/text.rs`.
- `tests/` runs the library.
- `app/` is the program: command line, files, memory maps, dynamic libraries,
  CPU detection, the C ABI of the kernels, and benchmarks.

## What is proved

- An artifact is accepted exactly when its header and every section record are
  in order; accepted sections lie in bounds, do not overlap and have unique
  kinds. What is built reads back.
- Executing a compiled plan means running its records one after the other, so
  fusing additions changes no bit.
- Comments, blank lines and spacing of a plan source do not change the plan.
- Lowering a plan says which operation does not fit, or gives records that
  compile unless they need too many segments. Where arithmetic and kernels are
  deterministic, certifying a plan with operations never finds a difference.
- Plans with different segments have different documents. An address is the
  SHA-256 digest of a document's canonical form, so equivalent documents share
  one.
- A record reaches only kernels that are admitted and of the kind it needs.
- The register-blocked matmul kernels compute the entries of the scalar
  reference wherever fusing a step changes nothing.

## Commands

```text
native-machine init [--root PATH] [--force]
native-machine inspect-host
native-machine doctor
native-machine config show
native-machine kernel list | inspect PATH | test PATH | install PATH | demo | bench
native-machine artifact inspect PATH | validate PATH | create-fixture PATH
native-machine artifact create-plan SOURCE OUTPUT
native-machine run --artifact PATH --input PATH
```
