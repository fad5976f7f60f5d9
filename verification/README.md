# zac

ZAC is a binary container for Groth16 / BN254 verifying keys (`.zac`) and
for proofs bound to them (`.zacp`), together with readers for the iden3
`.r1cs`, `.wtns` and `.zkey` files that a key and a witness come from.

The library in `src/` is written in Verus: every parser, encoder and check
carries a contract over a mathematical model of the bytes, and the
round-trip and binding laws are proved as public proof functions.

- `header`, `index`, `section`, `trailer`, `zac_file`: the `.zac` layout,
  parsed and written; `lemma_zac_round_trip` and `lemma_zac_reencode` state
  that what `encode` writes parses back and re-encodes to the same bytes
  (`lemma_encode_parse_encode`: whenever `parse` accepts it), and
  `lemma_zac_parse_encode` that every accepted file packed as `encode`
  packs it is exactly the encoding of what `parse` returns.
- `zac_proof`: the `.zacp` layout, with its round trips.
- `groth16`, `proof_check`: decoding points, keys and scalars, and `verify`,
  whose result is stated check by check in `verify_result`.
- `iden3`: the binary file framing and the `.r1cs`, `.wtns` and `.zkey`
  readers and writers.
- `prover`: the witness check and the binding of proof points into a
  `.zacp`. Computing the proof points themselves (the native Groth16
  prover behind `zac prove`) is not part of this crate: its source is not
  available to it, so there is no `prove` function and no `prove`
  subcommand.
- `hash`, `crc`, `error`, `cli`, `wire`: digests, CRC-32, the error
  registry, the pieces of the command-line tool that compute (including
  the container `zac pack` builds), and the little-endian codecs everything
  else is built on.

Calls into `ark-*`, `blake3`, `crc32fast` and `std::str::from_utf8` stand
behind `#[verifier::external_body]` wrappers, each with a doc comment that
says what its contract claims.

`app/` is the `zac` command-line tool (`verify`, `inspect`, `pack`,
`hash`): argument handling and file I/O around the library.
