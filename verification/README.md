# DeskFrog

A tiny desktop companion: a 🐸 that wanders over the screen in roguelike
grid steps, naps, gets startled, flees from the mouse cursor and comments in a
small DOS-style speech bubble drawn with the 8x8 Font8x8 bitmap font.

## Layout

- `src/` — the library, verified with Verus:
  - `brain/` — the frog's state machine (`Frog`), its commentary
    (`messages`), and grid movement, wandering and fleeing (`movement`);
  - `render/` — CPU compositing of the frame (`Frame`), the speech bubble
    (word wrap, measuring, drawing, layout), the About window's layout
    (`about`), the bitmap font and the glyph bitmap type;
  - `placement.rs` — window position and canvas size; `config.rs` —
    behaviour defaults; `wide.rs` — UTF-16 strings; `chance.rs` — the random
    draws the brain makes.
- `app/` — the X11 program around it: reading `deskfrog.toml`, rasterizing
  the emoji with swash, the click-through window, the tray icon and
  showing the About window. It targets X11 only: there is no Windows front
  end (window procedure, layered window, tray icon, monitor enumeration).
- `tests/` — tests of the library.
