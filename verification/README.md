# openlcd

Verified core of a tool-chain for USB LCD panels (the K-MEX HL VMAX and
similar displays): device protocols, frames and themes, sensor selection
and a decoder for USBPcap captures of the panels' traffic.

- `src/` is the library, written and proved with Verus. Contracts state
  what each public function returns or changes; where the work is done by
  a transport that the user supplies, they state what is handed to it and
  how its answers are passed on. Cross-function properties
  (moving layers back and forth, fresh layer identifiers, the managed-theme
  round trip, sensor choice, per-endpoint counting) are public proof
  functions named `law_*`.
- `tests/` exercises the library on concrete values.
- `app/` is the command-line capture decoder and the parts that need the
  file system, threads, serial ports, floating point or outside drawing
  crates: JSON storage of themes, system sampling, scene rendering with
  fonts and images, and the serial transport.

Floating-point values that themes and devices carry (positions, font sizes,
frame rates) are held in the library as their IEEE-754 bit patterns.

The graphical theme editor of the tool-chain is not part of this crate: its
window toolkit could not be brought in, and its code is widget layout and
floating-point geometry. The scene operations it drives are in `src/theme`.
