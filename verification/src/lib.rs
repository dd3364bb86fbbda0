pub mod chunker;
pub mod config;
pub mod destination;
pub mod error;
pub mod gate;
pub mod http_accept_header;
pub mod http_basic_auth;
pub mod listener;
pub mod mime_types;
pub mod open_file;
pub mod pwhash;
pub mod util;

pub use error::WuffError;
