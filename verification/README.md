# archflow

Architecture diagrams as code: a small DSL and a JSON model describe nodes,
edges and clusters; the drawing is laid out in layers and written as SVG.

This crate is the verified core, written in Verus:

- `src/dsl.rs` – the DSL parser, specified line by line (`parse_dsl_spec`)
  and proved to follow that specification.
- `src/parse_laws.rs` – what every parsed diagram satisfies (edges and
  cluster children refer to nodes, node identities and ids are unique, so
  every parsed diagram passes the schema checks; settings are valid), node
  references are stable, edge chains link hop to hop, a line that cannot be
  read leaves the settings alone, ids have the shape of ids.
- `src/layout.rs` – layer assignment by topological settling (Kahn's method),
  with each layer sorted by id; the ranking is unique and edges from settled
  nodes point to later layers, and every node is settled exactly when the
  graph has no cycle.
- `src/validate.rs` – the schema checks of a diagram.
- `src/number.rs` – which texts read as numbers for the layout settings.
- `src/render.rs` – the SVG writer, over a scene whose numbers arrive as
  decimal text: each element's lines, groups indenting their children, stroke
  attributes only for a stroke that is not `none`, the shadow filter only for
  shadowed shapes, and text content only in escaped form (escaped text holds
  no markup and reads back to the text).
- `src/theme.rs` – the six built-in themes (sizes in tenths of a pixel),
  theme names, the provider cluster presets, and the order
  in which a style attribute is resolved (explicit style, then provider
  preset, then theme).
- `src/text.rs`, `src/model.rs`, `src/error.rs` – strings as character
  sequences, the diagram model, and the error type.

`app/` holds the command line tool (`archflow render diagram.json -o out.svg`),
the JSON model with serde, the floating-point geometry of the layout, the
theme values as `f64` with the user's custom overrides, the scene graph (with
its numbers turned into text for the library's SVG writer), and the Python
binding.
