# ops_plagiary

Downloads the metadata and images of an NFT collection. The library (`src/`)
holds the decisions, with their proofs; the program (`app/`) asks the user,
talks to the network and writes the files.

- `url`: menu answers, counts, the download form of a link (`ipfs://` through
  the public gateway), and the links of a collection under one root.
- `hex`: the `uri(uint256)` call data of a token and the decoding of the
  contract's hex answer.
- `json`: the object inside a text, and the `result` string of a JSON-RPC answer.
- `rpc`: the node-by-node query of a token's link (`EthCilent`).
- `download`: file names and extensions, the fetch of one token with retries
  (`NftDownload`), and the hand-out of tokens to the workers (`TaskQueue`).
- `numfmt`, `text`: decimal and hexadecimal digits, and character searches.
