# stapifaction

Stapifaction generates static APIs: each entity is written to a file whose
path follows from the entity's path elements (a fixed path, an id), from the
path that qualifies it as a child of another entity, and from an expand
strategy (one folder per child, or every child in one folder).

Layout:

- `src/` is the library, verified: path joining, resolvable paths, expand
  strategies and path styles, the planning of the files to write for a tree
  of entities (`persist`), and the decisions of the `Persist` derive
  (`derive`): reading field attributes, detecting duplicated names, and the
  layout of the generated implementation. `src/laws.rs` and
  `src/derive/laws.rs` hold the properties proved of them.
- `app/` holds what surrounds the library: the `Persist` and `Persister`
  traits that users implement, the JSON persister that writes the files, and
  the token generation of the derive.
- `tests/` runs the library on concrete entities.
