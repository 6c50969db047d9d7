//! What the operations are for, stated of their inputs and results alone.
//!
//! `records`, `blob`, `tree`, `read` and `fuse` speak of the models that the
//! contracts are written over; `writing`, `reading` and `serving` speak of the
//! executable operations, whatever arguments they are called with and whatever
//! they return for them.
pub mod blob;
pub mod fuse;
pub mod read;
pub mod reading;
pub mod records;
pub mod serving;
pub mod tree;
pub mod writing;
