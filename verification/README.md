# hyperevolution

Exact-aware candidate, fitness, archive, and replay carriers for optimization,
written in Verus. Evolutionary and stochastic search is treated as proposal
generation: acceptance keeps exact fitness evidence and the owning domain's
replay status. Genes and fitness values are `hyperreal::Real`.

## Layout

| Module | Contents |
| --- | --- |
| `exact` | The `hyperreal` operations the library relies on, each a single call: arithmetic results are named, comparisons that the stored forms settle (exact whole numbers, values of the same form) are stated exactly, and other certified comparisons and signs by what holds of every answer |
| `identity` | `CandidateId` (never empty) and `EvolutionError` |
| `fitness` | Fitness values, reports, exact total / Pareto / interval comparison |
| `search` | Genomes, candidates, populations, selection, mutation, crossover, diversity, the archive |
| `local_search` | Simulated-annealing classification and exact hill climbing |
| `gp` | Typed GP expression trees: validation and exact evaluation |
| `oracle` | Black-box evaluation reports and surrogate screening |
| `domain` | Replay manifests for the owning domain |
| `laws` | Properties that relate several operations, stated and proved |

Each public function states its result in its `ensures` over spec functions
and views; the hill climber's contract describes the whole path it took, the
scan that chose each step, and the evaluations it spent. Where a result
depends on certified comparisons, the contract says that it is the one some
sound record of comparison answers gives.
