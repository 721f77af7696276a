//! Finds scripture references in free text, turns lookup answers into
//! passages and assembles replies.
pub mod err;
pub mod reference;
pub mod text;
pub mod json;
pub mod passage;
pub mod reply;
pub mod lookup;
pub mod storage;
pub mod bot;
