# kopeysk

A tape-deck style music player, with the decisions it makes proved in Verus.

`src/` is the verified library:

- `player`: the shared state and what the controls do to it
- `worker`: what the playback worker decides on each round
- `tracks`: which files of the music folder are tracks
- `panel`, `text`: what the front panel says
- `single`: IEEE singles by bit pattern, against whole numbers
- `position`: places in a track, as singles, and what seeking makes of them
- `equalizer`: the bands, their gains and levels, the sliders
- `dsp`: filter delay lines, following the sliders, cutting the stream into blocks
- `meters`: the spectrum's bins and the dial's scale
- `settings`: what is kept between sessions

Elapsed times and lengths are whole nanoseconds; gains, volume and the places that
are sought are IEEE singles by bit pattern. Functions named `law_..` state what holds
of the library as a whole.

`app/` is the program around it: window (eframe), sound (rodio 0.17), transform
(rustfft), settings file (serde) and the floating-point signal path. `tests/` runs
the library on concrete values.
