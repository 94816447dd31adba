pub mod error;
pub mod identity;
pub mod modes;
pub mod numerals;
pub mod owner;

pub use error::OabError;
pub use identity::parse_id_input;
