# photonix_core

The verified core of a camera image-processing engine, written in Verus.

The library (`src/`) holds the decisions and the integer and bookkeeping work
of the engine, each function with a contract that Verus proves:

- `pipeline/scene`: scene classes, case-insensitive scene hints, the
  per-scene configuration table and the routing from luma facts and
  classifier labels to a scene.
- `pipeline/orchestrator`: which stages of the full pipeline run, in which
  order, the progress each reports, and the driver that hands the stages out
  and stops a run at its first failure.
- `pipeline/connectivity`, `pipeline/face`: 4-connected regions of a skin
  mask, and the padded box of the first largest region.
- `pipeline/codec`: JPEG to and from 8-bit RGB (through the `image` crate).
- `pipeline/bokeh`: the blur radii of the portrait bokeh.
- `compute/`: motion classes and frame choice for burst stacking, luma histograms, region
  copies and pixel shifts, pyramid sizes, tone-mapping and colour profile names.
- `ai/`: the session cache (a pinned scene classifier and a small
  most-recently-used list), the model registry, classifier label groups, tiling
  and tensor layout changes.
- `utils/memory`: the resident set size read from a process status text.
- `api/`: round-trip reports, the version line and the choice of scene source.

Public proof functions (`lemma_*`) state the laws that hold across calls,
such as what a cache lookup returns after an insert, that tiles cover the
image, that a layout change and its inverse give the image back, and that
pipeline progress only rises.

`app/` is ordinary Rust around the library: floating-point pixel work,
ONNX Runtime inference, threads and the application bridge. `tests/` runs the
library on concrete values.
