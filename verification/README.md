# Vesta

Vesta nodes measure temperature, pressure, humidity and gas resistance to notice
wildfires early, and send what they measured over LoRa. This crate is the part of
the system that must not be wrong about bytes, written in Rust and verified with
Verus.

## Layout

`src/` is the verified library.

- `telemetry`: version 1 frames, and the choice of a decoder by the version byte.
- `v2`: version 2 frames. `types` holds the values and the constants, `header`,
  `config`, `profile` and `health` one kind of payload each, `frame` the decoder
  of any frame, `airtime` the time on air, `hash` the configuration hash, and
  `laws` what holds of encoding and decoding together.
- `records` and `convert`: the receiver's records and how frames become them.
- `reassembly`: profile scans from their fragments. `model` says what a
  reassembler does, `laws` what follows.
- `analysis`: quality flags, history per sensor series, and exact features.
- `hex`, `text`, `wire`: text and numbers as characters and bytes.
- `render`: what a receiver prints.
- `storage`: what a receiver stores, row by row, and how it counts late fragments.
- `sx1262`: the commands for the radio, and how its answers are read.
- `session`: the decisions of a receiver between the radio, the database and its
  output.

`app/` is the receiver around it: the command line, the Raspberry Pi driver, the
SQLite database, JSON, and features in floating point. `tests/` runs the library.

## Reading the contracts

A frame is a sequence of bytes, and `encoded_*` and `decoded_*` functions say
which. A value that is refused has a fault, given by a `*_fault` function, and an
executable function returns exactly that fault. Functions named `law_*` relate
several of these.

Times are nanoseconds since a reassembler was made, so that every decision on
time is a decision on plain numbers. Features are exact integers: a change and
the microseconds over which it happened, not a rate.
