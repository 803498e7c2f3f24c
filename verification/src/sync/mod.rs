pub mod inner;
pub mod mutex;
pub mod semaphore;
pub mod condvar;
