//! Lane layout and press-marker timeline for a controller input piano roll.
pub mod button;
pub mod piano_roll;
pub mod proofs;
pub mod skin;
