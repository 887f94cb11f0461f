//! VaultX: an account vault for League of Legends accounts, with its
//! encrypted storage format, the op.gg profile parser, the League client
//! lobby reader and the small decision rules around them.

pub mod codec;
pub mod crypto;
pub mod storage;
pub mod session;
pub mod text;
pub mod clock;
pub mod json;
pub mod update;
pub mod scraper;
pub mod lobby;
pub mod collect;
pub mod system;
