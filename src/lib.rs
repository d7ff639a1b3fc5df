//! A remote-shell relay and its companions: the filter that removes Cursor
//! Position Reports from byte streams, the relay engine and the session
//! control that drive an interactive shell, the bytes a key press sends, the
//! saved-connection store, the encryption of saved secrets, the ordering of
//! remote directory listings, and the reading of what the user types.

pub mod cpr;
pub mod relay;
pub mod session;
pub mod keys;
pub mod config;
pub mod crypto;
pub mod listing;
pub mod prompt;
