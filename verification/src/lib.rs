//! A chunked vector: a fast-access front buffer followed by separately
//! owned chunks, a prefix table for locating an element by its flat index,
//! and a per-chunk borrow table.

pub mod borrow;
pub mod borrow_state;
pub mod channel;
pub mod commands;
pub mod config;
pub mod config_inner;
pub mod handle;
pub mod indexing_mode;
pub mod inner_vec;
pub mod request_loop;
pub mod tangled;
pub mod tangled_indexing;
pub mod tangled_inner;
pub mod worker;
