//! A durable store of todo records: a binary record codec, an ordered key
//! space over 64-bit ids, and a store that keeps the encoded records in an
//! embedded key-value engine. Beside it stand a few small verified exercises.
pub mod basics;
pub mod bitset;
pub mod command;
pub mod engine;
pub mod keys;
pub mod listing;
pub mod record;
pub mod store;
pub mod vehicle;

pub use basics::{
    fib_sync, first, inc_x, index, int_string, is_alphanumeric, match_expr, max, min_max, primis,
    uppercase, uppercases, Expr,
    Point,
};
pub use bitset::BitSet;
pub use command::{parse_command, parse_id, same_text, Command};
pub use keys::{key_id, storage_key};
pub use listing::{collect_listing, Filter, Listing};
pub use record::{Priority, Todo, TodoError};
pub use store::{blank, next_id, white_space, TodoStore};
pub use vehicle::VehicleStatus;
