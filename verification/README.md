# meshsplat

Photos in, a gaussian splat and a triangle mesh out. Everything that the program
decides is a library whose functions carry contracts that Verus proves; what
touches the disk, the network, other programs or floating-point arithmetic is a
thin program around it.

## Layout

- `src/` is the verified library.
  - `ply`, `splat_ply`, `point_cloud` read splats, point clouds and lists of
    cameras from bytes; `point_laws` holds what is proved of every point cloud.
  - `grid`, `closing`, `surface_nets` close a sampled distance field into a solid
    and take its surface, of which `net_laws` and `inversion` hold what is proved;
    `tsdf`, `cells`, `mesh` decide what goes into the field and find neighbours.
  - `colmap`, `ffpose` are the two ways to camera poses: where their programs
    are looked for, how they are called, what their output says, and what
    follows each outcome.
  - `gpu`, `train`, `cli`, `run`, `report` are the run around it: the order in
    which adapters are tried, presets, inputs, stages, and what is told.
  - `text`, `sorting`, `ieee`, `timing` are what the others stand on.
- `tests/` runs the library.
- `app/` is the program.

Floats stand in the library as the bits of IEEE singles: `ieee` compares them,
and nothing there computes with them. Paths stand as text.
