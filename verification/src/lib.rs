//! A fixed 32x32 board of cells on which two-cell-wide "ball" markers are
//! placed and removed by pointer clicks. The board maps pointer positions to
//! cell indices, enforces the non-overlap rule for balls, advances by
//! double-buffered ticks, and round-trips through a textual snapshot.
//!
//! Placement follows the toggle policy: clicking a ball removes it, and a
//! new ball is refused only when a ball is anchored immediately to its
//! right. The stricter window policy, which refuses any neighbouring ball
//! without toggling, is kept alongside it as `grid::Loom::insert_ball`.

pub mod codec;
pub mod grid;
