# flayout-wgpu

A viewer for GDSII and OASIS layouts. The library under `src/` holds all that the viewer decides
and is verified with Verus: every function states in its contract what it returns or changes, and
the laws of the library are proved beside the functions they speak of. `app/` is the program around
it: the window, the graphics card, files, and computing in floating point.

## Coordinates

Verified code does not compute in floating point. A coordinate is an `i32` key that orders as the
coordinate does (`coords`). What has to be computed on coordinates - placing, scaling, cutting,
rounding - comes in as functions, and the contracts say what is made of whatever those functions
give. `app/` hands in the functions.

## Layout

- `coords`, `counters`, `seqs`, `layers`: keys of coordinates, capped sums, sequences, sets and
  maps of layers
- `scene`: shapes, scenes, and the views that a file offers
- `layout`, `hierarchy`: cells and their instances, depth and cost of the levels below a cell
- `view_builder`, `workset`: what a view shows of a layout, without unfolding all of it
- `io`: from the structures of files to scenes (`flatten`, `gds`, `oasis`) and layouts (`layered`)
- `renderer`: tiles, what they are drawn with, and the schedule by which they are built, shown and
  dropped
- `app`, `camera`, `ui`, `persistence`, `perf`: the state of the viewer and its course

## Main laws

- Unfolded or not, a file shows the same shapes on the same levels (`io::agreement`).
- Limiting a view to an area or to a layer hides nothing else (`workset`).
- The cost of a level is the number of its shapes (`workset::costs`).
- Searching by the grid finds every visible shape (`renderer::grid`).
- Pieces that were cut ahead of drawing are drawn as the shape cut to the tile
  (`renderer::piece_laws`, `renderer::prepared_laws`).
- A changed override of one layer changes the key of the view (`renderer::hash_laws`).
- No requested tile is forgotten, shown tiles are kept, a view that is complete stays as it is, and
  a frame that reports a hit did no work (`renderer::schedule`).
- No wish of the user is passed over (`app::viewer::actions`).
- What a session saves comes back in the next one (`app::viewer::laws`).
