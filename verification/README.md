# Nøkk

Nøkk is a small desktop pet: a green troll that idles, walks, sleeps and dances on
your screen, and reacts to pokes, drags and stroking. It runs as a Wayland layer-shell
overlay, as a layered window on Windows, or in a terminal.

The crate `nokk_core` (in `src/`) holds the pet's logic, verified with Verus:

- `assets`: animations, hit zones and the sprite sheet, with the manifest checks;
- `pet`: the pet's behaviour over time and its reactions, with heart particles;
- `gesture`: recognising a stroke from pointer motion;
- `render`: drawing frames onto an RGBA surface with premultiplied blending;
- `scene`: one frame of the desktop pet, hearts included;
- `console`: fitting a frame into a terminal of half-block cells;
- `desktop`: pointer handling, tray commands, output descriptions and buffer layout;
- `config`: where the configuration lives and its errors;
- `decode`: the calls into the `png` decoder;
- `text`: the string searching and number reading that the above need.

`app/` is the program around it: argument handling, the configuration file (RON),
the terminal loop, the Wayland and Windows event loops and the tray. It builds the
sprite sheet and manifest from `assets/nokk/` into the program.

`tests/` exercises the library on concrete values.
