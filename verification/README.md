# argo

Verified core of Argo, an isolated-market lending protocol for the Logos
Execution Zone.

- `src/math.rs`: 128×128→256-bit widening multiply, 256/128 long division,
  `mul_div_down` / `mul_div_up` and the WAD helpers, each proved equal to the
  exact rational quotient (floor or ceiling) or `None` on overflow.
- `src/shares.rs`: virtual-share conversions in both rounding directions, with
  the round-trip and rounding-direction laws.
- `src/irm.rs`: interest-rate-model constants and utilisation.
- `src/seeds.rs`, `src/program_id.rs`: PDA seeds and the hex text form of
  program ids (format, parse, and the proofs that each undoes the other);
  `src/guests.rs`: which deployable guest a name selects.
- `src/runtime.rs`, `src/lending.rs`, `src/vault.rs`: the program handlers as
  functions from the facts they read of their accounts to the post-states and
  chained calls they ask for.
- `app/`: byte encodings (borsh, serde), harness helpers, and the adapters
  between the runtime's account objects and the handlers.
