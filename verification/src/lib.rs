//! Engine for an Ishido-style tile-placement puzzle, verified with Verus.
//!
//! A player places stones — each carrying one of six colors and one of six
//! symbols — onto a 12 x 8 grid. A placement is legal only if it matches
//! the occupied orthogonal neighbors of its cell: by color or symbol with
//! a single neighbor, and by a color/symbol split when there are more.
//! The engine owns the grid, the shuffled 72-stone supply, the cursor,
//! scoring with its combo bonus, and game-over detection; rendering and
//! input belong to the callers.

pub mod board;
pub mod stone;
