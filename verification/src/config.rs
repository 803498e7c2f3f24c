use vstd::prelude::*;

verus! {

/// Number of applications the loader expects at most.
pub const MAX_APP_NUM: usize = 4;
/// Size of one user stack.
pub const USER_STACK_SIZE: usize = 8192;
/// Size of one kernel stack.
pub const KERNEL_STACK_SIZE: usize = 8192;
/// Time slice, in milliseconds, after which the scheduler runs.
pub const SCHEDUL_INTERVAL: usize = 10;
/// Size of the kernel heap.
pub const KERNEL_HEAP_SIZE: usize = 0xA00000;
/// Size of a page.
pub const KERNEL_PAGE_SIZE: usize = 4096;
/// log2 of the page size.
pub const KERNEL_PAGE_WIDTH_BITS: usize = 12;
/// Ticks per second of the board's clock.
pub const CLOCK_FREQ: usize = 12500000;
/// End of the frames that the frame allocator hands out.
pub const AVALIABLE_FRAMES_END: usize = 0x83600000;
/// End of the board's memory.
pub const AVALIABLE_MEMORY_END: usize = 0x84000000;

/// Switches that the kernel turns on while it boots.
pub struct DynamicConfigs {
    /// file operations do not block
    pub nb_file_ops: bool,
    /// the memory-mapped UART is ready
    pub uart_ready: bool,
}

impl DynamicConfigs {
    /// Both switches off, as at boot.
    pub fn new() -> (r: Self)
        ensures
            !r.nb_file_ops,
            !r.uart_ready,
    {
        DynamicConfigs { nb_file_ops: false, uart_ready: false }
    }

    /// Whether file operations are non-blocking.
    pub fn get_file_block_mode(&self) -> (r: bool)
        ensures
            r == self.nb_file_ops,
    {
        self.nb_file_ops
    }

    /// Turns file operations to non-blocking.
    pub fn set_file_non_blocking(&mut self)
        ensures
            final(self).nb_file_ops,
            final(self).uart_ready == old(self).uart_ready,
    {
        self.nb_file_ops = true;
    }

    /// Whether the memory-mapped UART is ready.
    pub fn is_mmio_uart_ready(&self) -> (r: bool)
        ensures
            r == self.uart_ready,
    {
        self.uart_ready
    }

    /// Marks the memory-mapped UART ready.
    pub fn set_mmio_uart_ready(&mut self)
        ensures
            final(self).uart_ready,
            final(self).nb_file_ops == old(self).nb_file_ops,
    {
        self.uart_ready = true;
    }
}

} // verus!
