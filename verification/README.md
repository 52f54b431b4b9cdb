# fractal_music

Exploration of real and complex recurrences (the logistic map, `z -> z^2 + c`
and the fixed point of `cos x`): attractor detection, discretization of the
values on a grid of coordinates, and Strudel patterns made from the
attractors found.

The library under `src/` is written in Verus and proved:

- `analyzer`: the parameter checks of an analysis, the detection window, the
  periods tried, the terms averaged for each phase of a cycle, the reduction
  of a cycle to its shortest period, the comparison of cycles up to rotation
  and the classification of a sequence.
- `discretization`, `axis_maps`: grid layouts that keep an insertion-ordered
  map of axes to cell counts (`indexmap`), the alignment of a point's cell
  indices with the axes, and the numbering of cells.
- `coordinates`, `pipeline`: coordinate systems by name and axes; choosing a
  recurrence, a coordinate system and the ranges of an exploration.
- `music`: root notes, scales, the placement of attractor points on scale
  degrees, note names and the Strudel code of a pattern.
- `audio`: reading the playable part of Strudel code (notes, drums, chords)
  and explaining each call; `playback` proves that the code written for a
  pattern is read back as exactly its notes (melody), its chords (harmony),
  its notes over one bass drum (rhythm) or its notes twice (texture).
- `session`, `cases`: the checks made when a session is read, case
  identifiers, and the book of stored cases.
- `display`, `text`: localized labels, thinning of long trajectories, and the
  text helpers the rest is built on.
- `laws`: properties that relate several of the above.

`app/` is the command-line program around it: the floating-point work
(iterating recurrences, projecting values, locating them in ranges), JSON and
CSV files through serde and csv, and playback through rodio.

```
fractal_music [--session FILE] [--clear] [--case NAME:PARAM=VALUE,...] [--drop CASE-ID]
              [--range AXIS=MIN,MAX,STEPS] [--music CRITERION,SEGMENTATION,SCALE,ROOT,OCTAVES]
              [--export-json FILE] [--export-csv FILE] [--play] [--english]
```
