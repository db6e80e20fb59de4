//! Shared dictionaries for scripts.

pub mod shared_dict;
pub mod dict_store;
pub mod dict_size;
