//! A polyphonic wavetable synthesizer core in fixed-point arithmetic.
//!
//! Amplitudes are integers scaled by `AMPLITUDE_ONE` (the value that stands
//! for 1.0), frequencies are integers in millihertz, and oscillator phases are
//! 32-bit fractions of one period.
pub mod keys;
pub mod laws;
pub mod render;
pub mod synthesizer;
pub mod voices;
pub mod wavetable;

pub use keys::{get_frequency_from_key, key_event, NoteEvent};
pub use render::{render_buffer, render_frame};
pub use synthesizer::{Synth, TABLE_SIZE};
pub use voices::{note_off, note_on, Voice, FREQ_TOLERANCE_MHZ};
pub use wavetable::{
    generate, make_saw_wave, make_sine_wave, make_square_wave, make_triangle_wave, WaveType,
    AMPLITUDE_ONE,
};
