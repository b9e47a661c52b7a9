# ferrum_core

The statistical-transform engine of the ferrum charting library, split in two.

- `src/` is the verified core, written in Verus. It holds the logic that
  decides how rows are grouped, keyed, ordered, partitioned, reshaped and
  labelled: group keys and their materialization, first-appearance and sorted
  partitions, window partitions, ranks, shifts and frames, fold and flatten
  layouts, bin counting and cumulative counts, hexagon cells, contour cell
  cases and level ids, letter-value depth layouts, imputation within groups,
  stacks in sort order, aggregation output layouts, bootstrap resampling from
  a seeded ChaCha8 stream, the option checks of every transform, and the
  routing of named pipeline outputs. Every public function
  states its result in its contract, and the laws that span several calls
  (pipeline chaining, key round trips, partition coverage, monotone
  cumulative counts, and more) are proof functions.
- `app/` is ordinary Rust around it: conversion between Arrow record batches
  and the library's table, the floating-point statistics (quantiles, kernel
  densities, model fits, contour interpolation), serialized transform
  specifications, the pipeline driver and the Python classes.
- `tests/` exercises the library through its public API.

The expression-based transforms (filter and calculate) are not part of this
crate.
