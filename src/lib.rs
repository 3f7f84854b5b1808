//! A client for a line-oriented server query protocol: it decodes the status
//! line that ends each response and drives a login followed by a server
//! selection.
pub mod codec;
pub mod number;
pub mod session;
pub mod status;
pub mod text;

pub use codec::{decode_result, decode_text, parse_status_line};
pub use number::{decimal_text, parse_i32};
pub use session::{
    login_command, port_or_default, read_data, reply_status, select_command, staff, Action, Event,
    ReadOutcome, Run, Stage, BANNER_TIMEOUT_SECS, DEFAULT_PORT, REPLY_TIMEOUT_SECS,
};
pub use status::{QueryError, QueryStatus};
