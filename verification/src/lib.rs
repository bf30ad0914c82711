//! A minimal mail-retrieval protocol core: a line-oriented command
//! engine over a flat filesystem message store, with the addressing
//! scheme, FETCH response synthesis, SEARCH filter and header
//! extraction verified.  The surrounding process (sockets, TLS,
//! directory enumeration) supplies plain values — input lines, folder
//! names and message-file snapshots — and writes the returned lines.
pub mod dates;
pub mod email;
pub mod engine;
pub mod error;
pub mod session;
pub mod strutil;
pub mod types;

pub use dates::MAX_FORMAT_TS;
pub use email::Email;
pub use engine::Control;
pub use engine::Mailbox;
pub use engine::greeting;
pub use engine::handle_command;
pub use engine::parse_response;
pub use error::Error;
pub use error::IMAPResult;
pub use session::MailEntry;
pub use session::UID_SCALE;
pub use session::UserSession;
pub use session::filename_to_uid;
pub use types::Command;
pub use types::Response;
