# trefoil

A model of a folded polyhedron with rotational symmetry: one copy of its
vertices and edges is stored, and the other copies are its rotations. An
edge may join a vertex of the base copy to a vertex of a rotated copy.

- `src/` is the verified library (Verus). It decides which vertices and
  edges exist: the regular polygon a model starts from (`Model::polygon`),
  the polygons added along a path of vertices (`Model::add_polygon`), the
  extra edge that gives every two-edge vertex a third one
  (`Model::ensure_all_verts_have_three_edges`), the edge ends at each vertex,
  the vertex labels, and the decisions of the side panel and the main loop.
  Vertex positions and rotations are opaque values of the caller's types.
  `src/graph.rs` holds the degree properties proved of these operations.
- `app/` is the viewer: it computes positions, rotations and spring forces
  with `three-d`'s floating-point math, renders the model, and runs the
  egui side panel. It expects the font `FiraMono-Medium.ttf` in the working
  directory.
- `tests/` exercises the library on concrete models.
