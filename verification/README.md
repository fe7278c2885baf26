# alkabi

Self-describing ABIs for alkanes smart contracts, as a library whose behaviour is
stated in contracts and proved by Verus.

- `src/` is the library. `schema`, `abi` and `types` describe a contract; `legacy`,
  `borsh_io`, `witness` and `abi_return` move its calls and answers; `expansion` writes
  the impls that the derives stand for; `extract` gets a document out of compiled wasm,
  of either ABI format; `plan` is the language of view plans, and `analysis` synthesizes
  them: by probing (`host`, `synth`, `fit`, `verify`, `list`) and by lifting
  (`lift`), a symbolic interpreter of the contract's wasm.
- `app/` is the command line tool `alkabi-extract`, the derives between the compiler's
  tokens and `expansion`, and what a contract needs of its runtime. The impls that
  `expansion` writes name their items under `::alkabi`: for a contract that is
  `app/contract.rs`, the library with the functions added that stand on bounds of borsh
  and of the runtime. `app/sample.rs` is such an impl, compiled.
- `tests/` runs the library with the crates it stands on.

What comes from outside is stated, not proved: reading and printing JSON (`serde_json`),
decoding wasm (`wasmparser`), running it (`wasmi`), and a few functions of std. Each such
function has its doc comment where it is called.

Plans are empirical: a plan ships only after it gave the bytes of the wasm in every one
of its randomized trials.
