# wmds

The verified core of the Wright Motor Design Suite: the parts of vehicle design, assembly and
manufacturing output that are decisions rather than measurements, each with a contract proved
by Verus.

## Layout

- `src/text.rs`: text operations the rest is written in (splitting, trimming, numbers, ordering).
- `src/expr/`: the expression language of definition files: lexer, Pratt parser, syntax tree.
- `src/editor/`: editing a part (parameters, features, ports, variants) and a vehicle
  (instances, joints, root, hand placement, catalogue, picking the ports of a new joint), each
  edit specified as a change to the definition.
- `src/model/`: the resolved model: which joint places which part (a breadth-first walk over
  the mate graph, with its invariants proved), port type compatibility, the rounds in which
  parameters resolve, where each parameter's value comes from, which option of each variant a
  part is made in, flattening
  sub-assemblies, the mount grid of a generated chassis (stations, cross-members, the names a
  vehicle mates to, and the names a chassis request gives), library file rules, and the error
  types.
- `src/mfg/`: manufacturing output: the build order and its instructions, the bill of
  materials, cut list and fastener schedule (grouped and stably ordered, with every part,
  piece and bolt proved to be counted once), and the whole build pack as Markdown (summary,
  tables and instructions, with no part of the bill left out), its measured figures handed in
  as text.
- `src/geom/level.rs`: the decisions of building a geometry level, feature by feature: which
  bodies each feature takes, what new bodies are called, and what is wrong with a feature.
- `src/geom.rs`, `src/crash.rs`, `src/dynamics.rs`: the non-numeric parts of geometry,
  crash and dynamics: level selection, body bookkeeping, the standard impacts, which parts
  crush end on and which are unsprung.
- `app/`: what the library leaves to its caller: error types with `Display`, the floating
  point arithmetic of transforms and of the pack's figures (written as numbers for the
  library's layout), and the loops that feed numeric results
  back to the library's decisions.
- `tests/`: scenario tests for each module.

Laws that span functions are public proof functions named `law_*`.
