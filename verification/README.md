# tinyrender

A small software rasterizer: it reads a Wavefront OBJ model and an RGB texture, shades each
face by its angle to a fixed light, and fills the triangles into a picture with a depth
buffer, which a window then shows.

The library under `src/` is verified with Verus:

- `array2d` — a row-major grid of cells with bounds-checked access;
- `geometry`, `geometry3` — points, segments, triangles and vectors over any number type,
  the `Convert` conversions, `mx`/`mn`, ordering a triangle's corners by height, and the
  vector operators (difference of points, cross and dot products, scaling);
- `image` — packed colours, the named colours, pictures, and the depth-tested pixel write;
- `loader` — the OBJ line format and the packing of RGB image buffers into pictures;
- `scene` — faces, and the scene that keeps objects, a depth buffer and numbered textures.

The program under `app/` does what needs floating point or the operating system: the line
and triangle rasterization, shading, reading files, and the window.
