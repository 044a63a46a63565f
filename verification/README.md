# sumer

The core of a personal-finance host: exact money, the supervision of adapter
processes, and a store of what they reported. The library is written in Verus;
what each function does is stated in its contract and proved.

- `src/money`: asset ids and exact decimal amounts.
- `src/wire`: what adapters send: records, statuses, pages, timestamps, frames.
- `src/host`: the connection to one adapter: request ids and their settlement,
  the judgement of replies, revision chains, instants.
- `src/store`: the tables, sweeps and the retractions they earn, balances, the
  text that a user reads.
- `tests`: the library run on concrete values.
- `app`: the program around it: processes, the SQLite file, the command line.

Files named `laws` hold what relates several functions. Every proof rests on the
contracts of a few functions of outside crates; each of those is marked
`external_body` or `assume_specification`, with a comment that says what is
claimed.
