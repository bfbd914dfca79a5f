# flico

A flicker scope: it reads the photocurrent that a Pico samples at 16 kHz behind a transimpedance
amplifier, shows the last five seconds of it, and next to them the spectrum of the part in view.

- `src/` is the library, verified with Verus: the wire protocol, the sample buffer, the view with
  its history of undo and redo, the scheduling of spectra, the choice of the port, and the texts.
- `app/` is the program around it: the window, the serial port, the threads, and the floating
  point arithmetic, the Fourier transform among it.
- `tests/` runs the library on concrete values.

The library holds no floating point number. Where it has to compare some, it works on their
IEEE 754 encodings (`src/ieee.rs`), and proves that their order is that of the numbers; how many
decimals a small number needs, it counts exactly (`src/figures.rs`). Values that it only passes
on, such as samples and views, are generic.

What is taken on trust is in `src/text.rs`: four functions on strings of the standard library,
each with the contract that the library relies on.
