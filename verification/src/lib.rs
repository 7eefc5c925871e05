//! An interactive editor for a small, typed set of named configuration
//! values: booleans, bounded integers, bounded floats, strings and
//! single-choice enumerations. The host hands the editor an item set and a
//! stream of input events; the editor tracks whether the user is browsing
//! the set or editing one item, renders the selectable lines and status
//! message for either state, and applies the per-type validation and
//! clamping rules when an edit is committed.

pub mod item;
pub mod mode_logic;
pub mod numtext;
