//! A small verified to-do list library: an ordered in-memory task store with
//! add / complete / uncomplete / rename / delete / list operations, and a
//! text codec that writes the store as a pretty-printed task file and reads
//! it back, falling back to an empty store on damaged input.

pub mod chars;
pub mod codec;
pub mod digits;
pub mod escape;
pub mod laws;
pub mod store;
