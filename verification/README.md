# horcrux

Splits a secret text into redundant shards, seals each shard with a passphrase, and
packages the sealed shards for storage on IPFS; the hashes that locate them travel as one
Base64 text, which can be hidden in the alpha channel of an image. The reverse path fetches,
opens and reassembles the shards.

- `src/` is the library, verified with Verus: Base64 (`b64`), key derivation and sealing
  (`crypto`), the shard types, cutting and packaging, unpacking, opening and reassembly
  (`algorithm::{models, encrypt, decrypt}`), the hash list (`hashes`), the alpha-channel message (`steg`), the command
  line table and decisions (`cli`, `commands`), and the laws that tie them together
  (`laws`). Calls into `base64`, `sha256`, `sodiumoxide` and `steganography` go through
  small trusted wrappers whose doc comments say what is assumed of them.
- `app/` is the program around it: JSON (serde) for shards, the IPFS client, image files,
  logging and `main`.
- `tests/` runs the library on concrete values.
