# zkryptium

Zero-knowledge proofs of knowledge of BBS+ and CL03 signatures, and range
proofs after Boudot (2000) for integers committed modulo an RSA modulus,
written in Verus: every public function of the library carries a contract,
and Verus proves each one against its body, except the small wrappers around
outside crates (`#[verifier::external_body]` in `curve.rs`, `integer.rs`,
`bytes.rs` and `hash.rs`), whose contracts are assumed.

## Layout

- `src/bytes.rs`, `src/integer.rs`, `src/modular.rs`: byte strings, integers
  of any size (on `num-bigint`), powers modulo `n` and their algebra.
- `src/curve.rs`, `src/hash.rs`: scalars and points of BLS12-381 (on
  `bls12_381_plus`), `expand_message`, hash to curve, SHA-256.
- `src/bbsplus/`: BBS+ ciphersuites, keys, messages and the generators.
- `src/cl03/`: CL03 ciphersuite, keys, messages and commitments.
- `src/utils.rs`: indexes, domains and scalars shared by the BBS+ proofs.
- `src/signatures/`: the proofs of knowledge (`proofs.rs`, `cl03_proof.rs`),
  the range proofs (`range_proof.rs`, `range_verify.rs`) and their
  completeness (`range_laws.rs`, `cl03_laws.rs`).
- `app/`: printing the generators and saving them as JSON, and the notice
  printed when fewer than two generators are asked for.
- `tests/`: tests run against the real outside crates.
