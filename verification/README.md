# ratify

Community governance on Soroban where a vote moves money only through a
delay and only inside a spending policy, with the rules of every contract
proved in Verus.

## Layout

- `src/` — the verified library. One module per contract, each holding the
  state that contract keeps and the decisions it makes, with contracts stated
  over a view of that state:
  - `treasury` — spending policy, the rolling window, the outflow record;
  - `timelock` — who may schedule, cancel and change the delay;
  - `membership` — grants of voting power that lapse, and the checkpointed
    power and head counts they add up to (`checkpoint` keeps the histories,
    `keyed` the ordered entries they are built from);
  - `weight_rule` — what a vote is worth under each model;
  - `registry` — each delegate's record of turning up;
  - `governor` — quorum, the limit on actions, the brake, operation salts;
  - `factory` — the register of communities and how their contracts are
    wired to one another.
- `tests/` — the behaviour of each contract on concrete scenarios.
- `app/` — the Soroban contracts themselves: storage, signatures, events,
  token transfers, hashing and deployment, and the governance library's
  proposal and operation state machines, each decision delegated to `src/`.

The laws each module promises are the `lemma_*` proof functions beside the
code they speak of, and the `ensures` clauses of its functions.
