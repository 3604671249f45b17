# colormemuch

RGB lighting control for Predator machines: the devices that an OpenRGB server
offers, and the lighting zones of the tower case.

- `src/` is the library, verified with Verus: the device model and the wire
  format (`model`, `openrgb`), effects as data and how zones share them
  (`effects`, `library`), the case's packets and commands (`rgb`, `dt`, `wmi`),
  the engine's decisions (`engine`), the service's frames and answers (`ipc`,
  `daemon`, `host`), and what the window shows and keeps (`screen`, `tray`).
  Where a property spans several functions, a public proof function states it
  beside them.
- `app/` is the program around it: sockets, pipes, files, threads, drawing, and
  the floating-point rendering of effects.
- `tests/` runs the library on concrete values.

Where `app/` calls a library function that has a precondition, it tests it first
or builds the arguments so that it holds. Numbers that the renderer computes in
floating point travel through the library as their bits (`number::Single`).
