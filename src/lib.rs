pub mod block;
pub mod block_map;
pub mod buffer;
pub mod concurrency;
pub mod error;
pub mod lock_table;
pub mod log;
pub mod page;

pub use block::BlockId;
pub use page::Page;
