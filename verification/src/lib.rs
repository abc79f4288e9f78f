//! Verified core of the Flow Motion Controller.
//!
//! - `protocol`: the 16-byte input frame shared by the Pico firmware and the
//!   Monado-side receiver, with its encoder and decoder.
//! - `session`: the receiver's state machine (sender ownership, frame
//!   freshness, debounced hand switching) and the routing of a frame to the
//!   two virtual hands.
//! - `joystick`: the firmware's ADC-to-axis scaling and dead zone.
//! - `firmware`: the firmware main loop's decisions (when to send which
//!   frame, the status LED, the boot-time joystick centre, button mapping).
//! - `debug`: the action names printed by the debug server.
//! - `calibration_file`: the text format of the tracker-mount calibration
//!   file, read and written.
//! - `settings`: the calibration request setting.
//! - `link`: properties of firmware, protocol and receiver together.

pub mod protocol;
pub mod session;
pub mod joystick;
pub mod firmware;
pub mod debug;
pub mod calibration_file;
pub mod settings;
pub mod link;
