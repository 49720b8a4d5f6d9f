# neuracle

NeuRacle is a decentralized oracle: users pay in the NAR token for access to
the data of an api, validators stake NAR, report data and vote on it in
rounds, and data accepted by two thirds of the active stake becomes what
users read. Validators that vote with the outcome are rewarded, the others
punished; stable coin projects read their price through the oracle.

The crate is verified with Verus.

- `src/` — the verified library: decimal arithmetic and parsing
  (`decimal`), resource and fee checks and the weighted vote (`utilities`),
  the ranking of validators by stake (`ranking`), the oracle component in its
  two forms (`neuracle`, with one data api component per api in `data_api`;
  `data_feed`, keeping the data itself), the validator component
  (`validator`) and the stable coin projects (`stable_coin`, and the variant
  in `data_feed`). Each component is a plain state with methods whose
  contracts say what they return and change; the laws of the system are
  public proof functions.
- `tests/` — tests of the library on concrete values.
- `app/` — the ledger side: reading the epoch, asking validator components
  for their status, votes and proposals, creating components, logging, and
  aborting calls with the components' messages. It checks what each library
  call asks of its caller before making it.
