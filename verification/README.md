# anchor_staking

Reward accounting of a staking contract with two pools, LUNA and UST, whose
stakers share the rewards of a time-based distribution schedule.

- `src/` is the verified library. `state` holds the records, `reward` how the
  schedule pays a pool and how a position catches up with it, `contract` the
  operations (bond, unbond, withdraw, schedule updates, migration, queries),
  `schedule` the facts about schedules, `guard` the executable forms of the
  operations' preconditions, `laws` the properties proved across operations,
  and `math` the fixed-point arithmetic, which calls `cosmwasm_std`.
- `app/` is the CosmWasm contract around it: entry points, storage, messages,
  and the query of the governance address.
- `tests/` runs the library on concrete values.
