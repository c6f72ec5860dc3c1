# storage_chain_index

The logic of indexing and inspecting a storage chain, written in Verus. The
contract of every function is proved, and laws that span several functions
stand beside them as public proof functions.

- `src/` is the verified library. Its crate documentation gives an overview of
  the modules.
- `tests/` runs the library on concrete values, with the crates it calls linked
  in.
- `app/` is ordinary Rust around the library: the command line of the database
  inspector, the messages and requests of the bitswap client, and the indexing
  task of a node, against small traits for what the node has to offer.

What is trusted and not proved: the private wrappers marked
`#[verifier::external_body]`, around calls into the `cid`, `unsigned-varint`,
`parity-scale-codec`, `sp-core` and `sp-runtime` crates. The documentation of
each says what is claimed of the call.
