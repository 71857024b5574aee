# apr

A library with the data structures and algorithms of the Apache Portable
Runtime, written in Rust and proved correct with Verus: the functions in
`src/` carry contracts (`requires` / `ensures`) over a mathematical model of
their data, and Verus checks the code against them. Where a result rests
on the machine alone (the system clock, the random source), the contract
states what holds of every outcome, and the computation around the reading
stands in a function of its own with an exact contract.

Layout:

- `src/` — the verified library, one module per area: status codes and
  errors, pools, base64, MD5 and SHA-1 (with the `apr1` password hash),
  string matching, tables, hashes, queues, UUIDs, random numbers, time and
  HTTP / e-mail dates, URIs, paths, character sets, command-line options,
  symmetric encryption, XML documents, and the constants of locks, memory
  maps and sockets.
- `tests/` — tests of the library on concrete values.
- `app/` — what talks to the operating system: files, the working
  directory, sleeping, and conversions to and from the `url` crate.

Calls into other crates (`md-5`, `sha1`, `getrandom`, `aes`, `des`,
`pbkdf2`, `xml-rs`) and into std where Verus has no specification stand
behind small wrappers marked `#[verifier::external_body]`; their doc
comments say what their contracts claim of the code they call.
