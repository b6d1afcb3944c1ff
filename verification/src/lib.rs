//! Core engine of a dual-pane file manager with an embedded terminal.
//!
//! Everything here is frontend-neutral: pane state transitions, the terminal
//! screen model and its byte parser, keyboard byte encodings, and shell
//! command construction. Frontends render the models and perform the I/O.
pub mod text;
pub mod terminal;
pub mod input_policy;
pub mod paths;
pub mod fs_model;
pub mod preview;
pub mod pane_laws;
pub mod pane_refresh;
pub mod dual_pane;
