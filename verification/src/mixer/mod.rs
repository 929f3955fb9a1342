pub mod config;
pub mod snapshot;

pub use config::{
    InputChannel, MidiChannel, MidiPlugin, MixerConfig, ReturnChannel, SendRoute, StripEq,
};
pub use snapshot::MixerSnapshot;
