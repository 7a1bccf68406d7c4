# niri

Parts of a Wayland compositor, written in Verus: picture-in-picture thumbnails, the expose view, app
icons, keyboard scrolling, background effects, and the `focus-or-spawn` section of the
configuration.

- `src/` is the library. Every function in it is verified. Positions and sizes are floating-point
  values held by their bits; comparing them is done and proved here, computing with them is asked of
  the caller, and contracts name what was asked and answered. `pip_laws` and `expose_laws`, and the
  public proof functions at the end of other modules, state what holds across operations.
- `tests/` runs the library with the arithmetic of the machine.
- `app/` connects the library to smithay, calloop, knuffel, gdk-pixbuf and the file system.

Three items of the standard library are trusted, each with its contract and a comment where it is
declared: `String::push`, `str::to_lowercase` and `String::from_utf8`.
