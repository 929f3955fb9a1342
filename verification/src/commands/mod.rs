//! What the mixer commands decide: the changes they make to the mixer
//! configuration, the strip levels they push, the modules they load and the
//! links they create. The process that performs those actions runs them.
pub mod channels;
pub mod conf;
pub mod events;
pub mod matrix;
pub mod pactl;
pub mod routing;
pub mod solo;
pub mod strips;

pub use solo::{strip_key, SoloSet, StripLevels};
