//! What a real browser tells about the media on a page, and how a tab of it is
//! recorded.

pub mod cdp;
pub mod chrome;
pub mod record;
pub mod sniff;
pub mod traffic;
