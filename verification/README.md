# ow_protocol

The verified core of the Original Works protocol tooling, written in Verus.

- `src/` is the library. The blob codec (`encoder`, `decoder`, `blob`, `path`,
  `laws`) packs DEFLATE-compressed DDEX messages into an EIP-4844 blob, 31
  payload bytes per field element behind a marker byte, and reads them back.
  `provider` and `kzg` hold the data provider's decisions and the KZG proof
  of a blob; `hex`, `chain` and `messages` hold the validator node's reading of
  blobs served in hex, its choice of sequencer logs and sidecars, the
  extraction of ISRC, GRid and image CID from the messages, and (`node`) its
  configuration. `deflate`, `xml`,
  `kzg`, `chain` and `provider` reach `miniz_oxide`, `quick_xml`, `c_kzg`,
  `sha2` and `infer` through a few trusted wrappers.
- `tests/` runs the library on concrete inputs.
- `app/` is the two programs around it: `app provider <folder>` and
  `app validator`, with the file, network and chain I/O.
