# cross_platform_screenshot_rust

The core of a screenshot tool — capture workflow, annotation history, raster
operations, PNG and GIF output, and long (scrolling) screenshots — written in
Verus, with the behaviour of every library function stated in its contract
and proved.

## Layout

- `src/` — the verified library.
  - `platform.rs`, `bytes.rs` — integer geometry, colours and byte helpers.
  - `png.rs` — the PNG encoder (stored zlib blocks, CRC-32, Adler-32), with
    the laws that the stored stream inflates back to its input.
  - `raster.rs`, `dc_control.rs` — the RGBA image: crop, alpha blending,
    pixelation, BGRA conversion (the parallel conversion goes through rayon).
  - `capture_core/` — the capture state machine, the annotation model and its
    undo/redo history, and the integer core of long-screenshot stitching.
  - `longshot/` — long-screenshot images, the session (frame checks, dropout
    trimming, the append bookkeeping), the capture runtime's scheduling
    decisions and the covered-window copy.
  - `common/` — the GIF frame cache and the calls into the `gif` crate.
  - `win32.rs`, `select_border.rs`, `uibase.rs`, `windows/` — message
    parameter packing, the dim mask, clipboard DIB layout, toolbar hit
    testing and dialog settings.
- `tests/` — tests on concrete values.
- `app/` — the program around the library: floating-point drawing and overlap
  scoring, settings files, GIF recording to disk, the capture worker thread
  and the runtime loop. Screen grabbing and window messages are Win32 calls;
  elsewhere they yield nothing.
