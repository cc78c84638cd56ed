# tarot

A reader for contactless cards common in China and nearby regions: PBOC transit cards
(Shenzhen Tong, T-Union, Lingnan Pass, Beijing and others), Macau Pass, T-Money, Octopus,
EMV bank cards, Mifare chips and ICAO travel documents (BAC and secure messaging). Raw card
bytes are gathered over PC/SC, decoded into readable cards, and transit records can be kept
in a local history.

The library in `src/` is written in Verus: every function carries a contract and is proved
against it, except the small `#[verifier::external_body]` wrappers around calls into `hex`,
`des`/`cbc`/`ecb`, `sha1`, `rand`, `encoding_rs` and a few std functions (`String::push`,
`str::to_uppercase`, `String::from_utf8`, `String::from_utf8_lossy`). Their contracts are
trusted, not proved; each one's doc comment says what it claims of the outside function.

- `apdu`, `model`, `error`, `hexfmt`, `text`: commands, responses, the record of a read, the
  channel that logs every exchange, and text helpers.
- `atr`, `aids`, `helpers`, `transit`, `mifare`, `felica`, `emv`, `cards`: what is sent to a
  card and what is kept of its replies. Each reader states, over the log of exchanges, exactly
  which commands it sends for which replies and which raw fields it stores; the transit reads
  follow read plans (`transit::plan_run`).
- `traveldoc`: key derivation, BAC, secure messaging and the data-group reads of passports
  and travel permits, on top of `des`, `cbc`, `ecb`, `sha1` and `rand`.
- `parse`: decoding of the raw fields into cards, transactions and trips.
- `history`, `settings`: the saved transit records and the settings, with their file formats
  and round-trip laws.
- `reader`, `app`, `display`: the decisions of the PC/SC exchange loop, the state machine of
  the terminal program, and the lines it shows.

`app/` holds the program around the library: the command line, the PC/SC session, file I/O
and the terminal interface. `tests/` exercises the library on concrete cards and states.
