# band_engine

A seeded generator of small looping bands. From a 64-bit seed it draws a tempo,
a key (root and mode), a four-bar harmony, a percussion kit whose four voices
play Euclidean rhythms, and three instrumentalists whose phrases move through the
mode over the harmony; a renderer then synthesises the loop.

- `src/` is the verified library (Verus): the splitmix64 generator, Euclidean
  rhythms, the music theory, percussion voices, the percussion, phrase and band
  builders (step functions that take the floating-point choices as arguments) and
  the sample placement of the renderer. Every random choice is stated in the
  contracts as a function of the generator's draws; chances are whole-number
  thresholds on 24-bit unit draws.
- `app/` holds what works in floating point or with the browser: the weighting
  of pitch candidates, keep probabilities and loudness, the synthesiser, the
  real-time renderer, JSON output and the WebAssembly bindings.
- `tests/` runs the library on concrete values.
