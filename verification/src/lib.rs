//! A heap made of pages, addressed by packed 32-bit handles instead of
//! pointers, so that what lives in it can be written to a stream, read back
//! and handed to a host as it is.
//!
//! The heap is built in layers. [`codec`] packs a page index and an offset
//! into one address. [`page_store`] keeps the pages and resolves addresses;
//! [`persist`] says what a page store looks like on a stream. [`arena`]
//! carves allocations out of the newest page, one behind the other.
//! [`slab`] keeps freed runs of equal slots in a list that lives in the
//! freed memory itself, and asks the arena only where the list has nothing
//! to offer. [`typed`] allocates, fills and frees one record of a type, and
//! [`adapter`] turns sizes in bytes into counts of slots for containers that
//! grow. Every operation takes the heap it works on as an argument.
//!
//! Beside the heap stands the configuration of the build tool whose graph
//! the heap holds: [`config`] reads what `.parcelrc` files say, merges a
//! file with those that it builds on, and answers which plugins run on a
//! file; [`fs`] and [`package_manager`] are what it asks of its
//! surroundings.

pub mod adapter;
pub mod arena;
pub mod bytes;
pub mod codec;
pub mod config;
pub mod diagnostic;
pub mod fs;
pub mod package_manager;
pub mod page_store;
pub mod paths;
pub mod persist;
pub mod slab;
pub mod source;
pub mod text;
pub mod typed;
