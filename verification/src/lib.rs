//! Font enumeration model: a uniform record for one font face, the three
//! enumeration adapters that turn raw face data into sorted record lists,
//! the filter that selects the visible rows, and the text that the table,
//! the status line and the preview show.

pub mod directwrite;
pub mod events;
pub mod filter;
pub mod fontset;
pub mod gdi;
pub mod record;
pub mod session;
pub mod sort;
pub mod text;
