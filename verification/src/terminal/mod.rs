//! UI-independent terminal subsystem: the screen model and its byte parser,
//! scroll regions and region-bounded line operations, key encodings, shell
//! cwd commands, the command-block history model and session configuration.
pub mod parser;
pub mod screen_laws;
pub mod scroll_region;
pub mod scroll_region_ops;
pub mod scroll_state;
pub mod region_laws;
pub mod input;
pub mod file_aware;
pub mod history;
pub mod viewport;
pub mod styled_runs;
pub mod utf8_laws;
pub mod session;
