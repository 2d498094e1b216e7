# Wonderdraft Asset Studio

A desktop tool that turns ordinary images and sprite sheets into Wonderdraft
asset packs: crop sprites out of source images, clean up their transparency,
set their Wonderdraft metadata, and export or install the pack.

The logic is a library verified with Verus; the window, file dialogs and
file I/O are a thin program around it.

## Layout

- `src/` — the verified library.
  - `pixels.rs`: RGBA buffers and their mathematical model.
  - `image_ops.rs`: colour tolerance, background removal by flood fill from
    the border, removal of a picked colour, alpha softening and thresholding,
    brush strokes, cropping and quarter turns.
  - `crop_geometry.rs`: crop rectangles under rotation, keyboard nudges,
    squaring, and re-framing a sprite against its source.
  - `model.rs`: crops, sources, sprites with undo/redo, themes and the records
    of a project file.
  - `sprites.rs`: copying crops, extracting sprites, keeping a sprite's crop in
    step with its source, turning a source with its crops and sprites.
  - `text.rs`, `naming.rs`: characters, file and folder names, readable labels.
  - `settings.rs`: reading Wonderdraft's `config.ini` and checking settings.
  - `paths.rs`: paths as components: the name shown for a file, and the
    folder asset packs are installed into.
  - `image_files.rs`: image file bytes decoded to RGBA (upright as their EXIF
    orientation asks, or as stored), and RGBA images encoded as PNG files.
  - `export.rs`: the plan of an export — files, metadata, themes, and the
    errors that stop it — and the layout of theme JSON.
  - `project.rs`: the records a project file holds, and reopening a project
    from them and from its loaded images.
  - `shortcuts.rs`: what the keys pressed in one frame make the workspaces do.
- `tests/` — tests of the library.
- `app/` — the egui program: windows, canvases, dialogs, reading and
  writing files, settings storage, the JSON of project files, and splitting paths into
  components for the library.
