//! Small verified building blocks shared by a family of interactive
//! graphics sketches: a frames-per-second counter, colour-channel helpers,
//! a fixed-size array conversion and a coarse Hilbert-curve walk.

pub mod pixel;
pub mod array;
pub mod fps;
pub mod hilbert;
pub mod rays;
