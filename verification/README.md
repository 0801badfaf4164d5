# tech_paws_graphics

A 2D graphics toolkit on top of `wgpu`, whose bookkeeping is verified with
Verus.

- `src/` is the verified library: instance pools and bump allocators with
  their GPU upload plans (`memory`, `memory_new`, `instances`), the ranges of
  instances to draw, mesh registries (`resources`), polyline building, the
  conversion of path outlines into tessellator events and the packing of SVG
  primitives (`svg`), and the frame scheduling of a view (`view`). Functions
  state their results in `ensures` clauses; laws that relate several calls are
  public proof functions named `law_*`.
- `app/` holds the GPU side: it creates and writes `wgpu` buffers as the
  library's plans say, builds render pipelines, parses SVG documents with
  `usvg` and tessellates them with `lyon`, and runs the frame loop. Camera
  matrices and everything else on floating point live there too.
- `tests/` run the library on concrete values.
