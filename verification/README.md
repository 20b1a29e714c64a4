# xBRDF

A baker for explicit BRDF data from periodic microgeometry. It reads an OBJ or
binary FBX tile, treats X and Z as a periodic domain with Y up, renders one or
more tiles of the upper hemisphere on the GPU, and writes an OpenEXR image with
a manifest beside it.

## Layout

- `src/` is the library, verified with Verus: settings and their validation,
  meshes, the bounding volume hierarchy, the parameters and the planning of
  dispatches, bakes as state machines, atlases, manifests, and the state behind
  the interactive program.
- `app/` is what touches the world: the command line (`main.rs`), the
  interactive program (`gui.rs`), files, and the device.
- `tests/` runs the library.

## Numbers

The library holds single-precision numbers as bit patterns. Comparing them,
choosing the smaller one or changing a sign is exact and done by the library, and
so is rounding from double precision, which mesh files use, and converting from
and to whole numbers.
Formulas are written out in the library over operations that round: sums,
differences, products, quotients, powers, scaling to unit length and a few angles.
Those operations are handed in as closures, which have to be functions in the
mathematical sense; contracts say what the library makes of them.
`app/floats.rs` has the closures that the programs use.

## Shaders

The shaders are read at run time: `assets/shaders/bake.wgsl` for the baker, and
`assets/shaders/model.vert` and `model.frag` for the preview.
