# scope_core

The core of a streaming oscilloscope, verified with Verus, and a desktop
front end around it.

- `src/` is the library, every function with a contract that Verus proves:
  - `ring_buffer`: the fixed-capacity sample buffer (its view is the sequence
    of held samples, oldest first) and its iterator;
  - `trigger`: the trigger engine as a state machine (`after_check`,
    `check_result`) with its laws (single-shot, holdoff, auto timeout);
  - `sample`: `SampleKey`, the order of a float sample as the trigger and the
    edge scans read it, computed from the IEEE 754 bit pattern;
  - `measure`: running extremes, rising zero crossings and rise/fall spans;
  - `timebase`, `export`: the visible window and the downsampling and header
    of exported and drawn traces;
  - `input`: white space, trimming and the CSV field splitting of input lines;
  - `channel`, `math`: channel labels and colours, coupling, FFT sizes.
- `app/` is the program: command line, input readers (stdin, file, TCP,
  WebSocket), the egui display, and everything computed in floating point
  (measurement sums, FFT, cursors, timebase scales).
- `tests/` runs the library on concrete values.
