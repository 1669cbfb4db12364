# planet_core

The combinatorial core of a procedural planet generator: triangle meshes
built from vertex positions and triangles, and recursive subdivision of
those meshes (uniform red splits, radial random splits and red-green
splits), verified with Verus.

Vertex positions are a type parameter of the library. The library proves
that every index a mesh holds is in bounds, that subdivision never fails,
how many vertices and triangles each round produces and which vertex splits
each edge; the caller supplies where split points go through the
`VertexOperator` trait.

Layout:

- `src/` — the verified library (`geometry`, `mesh`, `subdivision`,
  `subdivide`, `processor`, `presets`, `planets`, `color`).
- `tests/` — tests of the library.
- `app/` — the floating-point side: vectors, colours, noise, random split
  points, and planet generation built on the library.
