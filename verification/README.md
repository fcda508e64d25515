# urbilateria

The decisions behind running large mixture-of-experts language models in little memory, as a
library verified with Verus: what a checkpoint must hold and what it costs, which tensors and rows
are read in which order, which experts and layers stay resident, what sparse attention selects,
what every cache keeps, and how a token that fails is undone. Three model families are covered:
DeepSeek-V4, DeepSeek-V4.1 and GLM-5.2.

- `src/` is the verified library. Its contracts are stated over views and spec functions; the laws
  that relate several functions are public proof functions.
  - `residency`, `recency`, `ranking`: caches of experts, orders of use, orders of scores.
  - `storage`, `accounting`, `config`, `bits`, `lists`, `text`, `primes`: what the families share.
  - `models/deepseek_v4`, `models/deepseek_v41`, `models/glm`: one directory for each family.
- `app/` is ordinary Rust around it: configuration files, payloads, and the floating-point
  kernels. Numbers cross the border as their bits.
- `tests/` runs the library on concrete values.
