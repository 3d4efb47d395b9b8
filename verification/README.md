# subnet_merger

Verified merger of two subnets: the merged ("beta") subnet's pool and stakes
move into the surviving ("alpha") subnet. Each holder's stake is converted
so that what it redeems for against the surviving pool after the merger is,
within a rounding tolerance, no less than what it redeemed for against its
own pool before; the surviving pool holds both TAO reserves and keeps its
price.

The library models the chain storage that a merger reads and writes
(`state::Pallet`, with its mathematical model `state::PalletModel`) and
implements the merger as verified transitions of that state:

- `fixed` — fixed-point numbers; all fixed-point arithmetic is done by
  `substrate_fixed` through wrappers whose contracts state each result.
- `conversion` — the per-holder conversion formulas and redeemability.
- `stakes` — the stake table and its operations.
- `snapshot` — pool snapshots and the liquidity checks.
- `liquidity` — dissolving users' liquidity positions: TAO back to the
  coldkey, alpha to the hotkey's stake, provided reserves lowered.
- `emission` — paying a subnet's pending emission, root dividends and owner
  cut out to its stakers, pro rata, before a merger reads the pools.
- `governance` — propose, approve, cancel.
- `conversions`, `execution` — conversions of all holders, their application,
  pool consolidation, the redeemability check, cleanup and execution.
- `setup` — building and reading a state.
- `laws` — properties of the conversion formulas and of governance:
  dilution, bounds, symmetry, consistency of proposals and consents.
- `execution_laws` — properties of an executed merger: each holder keeps
  what their converted stake redeems for (`law_merger_keeps_redeemable_value`),
  a hotkey's new stake is the sum of its conversions, the surviving pool
  counts each pool's TAO once and keeps its price, pending amounts are paid
  out, liquidity positions are dissolved and their TAO returned, the merged
  subnet's owner gets its lock refund, the merged subnet is removed, and the
  history only grows.

Before the pools are read, both subnets' liquidity positions are dissolved
and their pending emission is paid out. The payout is a model: pending
emission, root dividends and owner cut go to the subnet's stakers pro rata.
