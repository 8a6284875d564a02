# agent_context_builder

Compose LLM system prompts from named sections with ordering and conditional
inclusion, as a Verus-verified library.

A `ContextBuilder` holds named sections (name, content, priority, enabled
flag) and a separator. Sections can be added, replaced, reprioritised,
disabled, re-enabled and removed; `build` joins the contents of the enabled
sections, highest priority first and otherwise in insertion order, with the
separator.

Layout:

- `src/model.rs`: the mathematical model (sections as sequences of values,
  the effect of each operation, the rendering order, the rendered prompt).
- `src/order.rs`: the rendering order exists, is unique, and is what an
  insertion sort produces.
- `src/builder.rs`: the builder, each method with a contract over the model;
  a type invariant keeps section names unique.
- `src/laws.rs`: laws relating the operations (read after write, disable and
  enable, removal, rendering order, counts).
- `src/seq_facts.rs`: general facts about filtered sequences.
- `tests/`: scenarios and laws on concrete values.
- `app/main.rs`: a small program that prints a prompt.
