# Ray tracer

Renders four preset scenes (sphere, plane and cube, one of each object, the
same from a second camera) to plain-text PPM files.

- `src/` is the verified library: reading the command line (`args`, `cli`,
  `decimal`), the presets and their file names (`scenes`), the scanline order
  of pixels (`raster`) and the PPM encoding (`ppm`).
- `app/` is the program: the floating-point geometry, shading and preset
  scene contents, file output and `main`.

Usage: `--scene N` (1 to 4), `--all`, `--width W`, `--height H`,
`--output FILE`, `--brightness B`, `--help`.
