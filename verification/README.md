# unit_compose

Composable, typed Unit graphs with contracts proved by Verus.

A Module is a validated DAG of Units connected by named, typed Resources.
The library resolves and compiles parsed definitions, schedules Units in a
stable topological order, plans conservative slot reuse for Resource
storage, prepares and runs typed Modules with bounded reports, and reads
YAML definitions into the same parsed form with span-carrying diagnostics.

## Layout

- `src/` — the verified library.
  - `ids`, `types`, `descriptor`: identities, port and Resource descriptors.
  - `resolve`, `compile`, `topo`, `sort`: resolution against registries,
    graph compilation, cycle reporting and the stable schedule.
  - `dense`, `storage`, `runtime_plan`, `runtime`: index-addressed graphs,
    live ranges and slot planning, runtime slot layout, input binding and
    publication bookkeeping.
  - `options`, `report`, `module`: build options, run reports and the typed
    composite Module.
  - `dynamic_run`: the decisions of a dynamic Module run, one step at a
    time, which the host performs over type-erased storage.
  - `error_text`: the diagnostic text of graph and configuration errors.
  - `render`, `inspection`: text, DOT and Mermaid views of a prepared Module.
  - `yaml_syntax`, `frontend`: the YAML syntax tree and the definition
    frontend.
  - `debug`, `navigation`: inspection adapters, the bounded event sink and
    the integer side of the navigation view.
  - `normal_form`, `declaration_order`: proofs that a compiled graph is
    determined by its Module alone, whatever the order in which Units are
    listed or YAML mappings are written.
- `tests/` — tests of the library.
- `app/` — what the verifier cannot hold: the type-erased slots and calls
  of the dynamic Module (its run decisions come from `dynamic_run`), serde configuration decoding, the counting allocator
  probe, floating-point timing annotations and the Rerun view.
