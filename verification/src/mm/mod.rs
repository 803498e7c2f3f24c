pub mod address;
pub mod areas;
pub mod elf;
pub mod frame_allocator;
pub mod memory_set;
pub mod page_table;
pub mod kernel_set;
pub mod user_set;
pub mod static_table;
