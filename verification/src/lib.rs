//! A small contact book for a peer-to-peer messenger: the user, the user's
//! contacts, the text file that stores them, the command line that edits them,
//! and the encryption of the messages that are sent to them.

pub mod address;
pub mod ident;
pub mod text;
pub mod user;
pub mod store;
pub mod command;
pub mod message;
pub mod crypto;
