//! A verified core for a tab-managing hypermedia daemon.
//!
//! The library covers the text command protocol, the slash-separated path
//! language over JSON-shaped documents, the document formatter, and the tab
//! registry with its reference-resolution and lifecycle rules.  The pieces
//! that touch the outside world (sockets, the browser engine) live in the
//! surrounding binary; everything here is logic with contracts.

pub mod command;
pub mod diag;
pub mod dispatch;
pub mod document;
pub mod format;
pub mod nums;
pub mod path;
pub mod registry;
pub mod text;

pub use command::{parse_command, tokenize, DaemonCommand};
pub use diag::{format_load_error, show_reply};
pub use dispatch::{dispatch, Action, Outcome};
pub use document::HyperValue;
pub use format::format_hypermap_styled;
pub use path::{get_value_at_path, parse_path, parse_scalar, parse_target, PathComponent};
pub use registry::{Tab, TabRegistry};
