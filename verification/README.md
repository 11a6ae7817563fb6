# depsy_lsp

Lockfile resolution for dependency manifests, verified with Verus.

A manifest declares a version or a range for each dependency; a lockfile pins
exact versions. The library decides which pin answers a declaration, whether a
pin is older than what the manifest asks for, and what is written back.

- `src/text.rs`: characters, white space, prefixes.
- `src/version.rs`: semantic versions and how they are written.
- `src/precedence.rs`: their total order.
- `src/semver_api.rs`: what is taken from the `semver` crate.
- `src/loose.rs`: reading versions as ecosystems write them.
- `src/staleness.rs`: pins below the declared lower bound.
- `src/selection.rs`: choosing among several pins of one package.
- `src/dependency.rs`, `src/lockfile_graph.rs`, `src/file_types.rs`: the data.
- `src/lockfile_resolver.rs`: the resolver trait, and the two entry points.
- `app/`: finding and reading lockfiles, which is asynchronous and unverified.
