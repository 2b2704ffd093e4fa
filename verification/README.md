# hyprlaser

A Google-Slides-style laser-pointer overlay for Hyprland: a red dot with a
tapering motion trail, on a click-through overlay above all windows, on every
monitor.

## Layout

- `src/` is the library, verified with [Verus](https://github.com/verus-lang/verus):
  - `hypr_ipc`: the request socket, `cursorpos` replies, and the poller;
  - `trail`: the shared history of cursor positions;
  - `overlay`: one overlay per output, and what it does on every compositor event;
  - `scale`: output scales, and the size of a buffer at a scale;
  - `render`: the choice of a surface, and the uniform that the shader reads;
  - `config`: what the command line may ask for;
  - `cursor_hide`: hiding the system cursor, and showing it again;
  - `float_bits`, `text`: comparisons of floats, floats of integers, and text helpers.
- `app/` is the program around it: sockets, Wayland, the GPU, and the arithmetic
  on floats.
- `tests/` are the tests of the library.

Floats go through the library as their bits, times as nanoseconds, and Wayland
objects as their protocol ids.
