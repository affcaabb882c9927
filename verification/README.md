# flamegraph

Verified core of a multi-track flame graph component.

`src/` is the Verus-verified library: the frame tree and its flattening into
per-track rows (times in integer nanoseconds), the per-name color key
(FNV-1a), the time-unit ladder used by labels, search matching, track
collapse and selection, label text, and the SQL sent to a Perfetto trace
processor. Contracts state each result exactly; the laws of the layout
(pre-order rows, deepest row, latest end, colors by name) are proof
functions in `src/data.rs`, those of collapse in `src/state.rs`.

`app/` is the floating-point and gpui side: the viewport (zoom and pan in
`f64` seconds), unit choice for labels, level-of-detail queries over pixel
widths, colors and style, and the component state.
