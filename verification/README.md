# Orbit

Orbit keeps containerised services running on one host: it reads service
definitions from a directory, starts the pods that each service needs, scales
them by latency and load, rolls out new images, and keeps the proxies in front
of them in step.

- `src/` is the library. It decides; it performs no I/O and reads no clock. What
  was observed comes in as plain values and what is to be done goes out as plain
  values. Every function carries a contract that Verus proves.
- `app/` is the program around it: the Docker runtime, the Pingora proxies, the
  file watcher, the status and metrics endpoints, and floating-point arithmetic.
- `tests/` runs the library on concrete values.

## Conventions

- Times and lengths of time are in nanoseconds.
- A measured quantity is a `Level`: a double carried by its bit pattern, so that
  it can be compared without being computed with. Where a percentage is computed,
  `rounding` gives the double to the last bit.
- A UUID is a number.
- Maps keyed by text come from `rustc-hash` and `dashmap`. Their contracts, and
  those of the few functions of `regex`, `uuid` and the standard library that the
  library calls, are stated next to the calls and not proved here.
- Long-running work is a task that answers each event with the next action, such
  as `container::scaling::task::ScalingTask`.

## Layout

| module | what it holds |
| --- | --- |
| `config` | definitions, their validation, limits, file events, left-over containers |
| `container` | names, pods, readings, health, volumes, runtimes, rollouts |
| `container::scaling` | latency samples, the scaling manager, the scaling task |
| `scale`, `rolling_update`, `status` | scaling by thresholds alone, replacement pod by pod, status from a cache |
| `proxy` | addresses behind each proxy |
| `api`, `metrics`, `logger` | what is reported |
| `level`, `rounding`, `text`, `pattern`, `stores` | quantities, percentages, texts, regular expressions, maps |
