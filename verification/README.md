# ThermalStats

Stress test a PC, read its real temperatures while it is under load, and share
the result for comparison with others who have the same hardware.

The logic is a library verified with [Verus](https://github.com/verus-lang/verus):
the functions in `src/` state what they return or change, and Verus proves it.
What is believed without proof are the contracts of the functions marked
`external_body` and of `String::push`. Each of them wraps a call into the
standard library, serde_json, chrono or unicode-width and says above it what is
claimed of that call.

- `src/` holds the library: reading what sensors and monitoring apps report,
  choosing between sources, running a test and judging its result, the series
  that is submitted, the web API's replies, and the interface's state and layout.
- `app/` is the program: threads, processes, files, the network and drawing.
- `tests/` runs the library.

Temperatures, loads and other measured values are integers in millionths of
their unit, and times are nanoseconds on a clock that never goes back.

## Using the program

Run it without options for the interactive interface, or with `--plain` for
line-by-line output. Only completed tests of at least a minute are submitted;
`--no-submit` keeps a result local. `--test debug` collects a diagnostics log.
