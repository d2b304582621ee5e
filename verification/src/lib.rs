pub mod audio;
pub mod chunks;
pub mod faces;
pub mod jpeg;
pub mod keyboard;
pub mod midi;
pub mod notes;
pub mod order;
pub mod panels;
pub mod paper;
pub mod piano;
pub mod picture;
pub mod player;
pub mod roll;
pub mod score;
pub mod sequencer;
pub mod session;
pub mod text;
pub mod ticks;
pub mod tracks;
pub mod transcribe;
