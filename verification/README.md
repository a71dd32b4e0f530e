# glow_station

Control software for a thermoelectric (TEC) stage with a PWM cooling fan and
a camera, verified with Verus.

* `src/` is the verified library:
  * `fan` — the sysfs writes that drive the PWM fan (paths, duty cycles);
  * `tec` — the serial protocol of the TEC board: commands, line framing,
    decoding, the readout line and the configuration acknowledgment;
  * `number` — the float-literal grammar documented for `f32::from_str`
    and unsigned byte literals;
  * `text` — decimal rendering, trimming, splitting, words;
  * `ui` — the keyboard state machine of the terminal monitor;
  * `experiment`, `camera` — the order of an experiment run, its files and
    the recording command line.
* `app/` is the program around it: serial port, sysfs and process I/O,
  floats, YAML, and the ratatui monitor.
* `tests/` runs the library on concrete values.
