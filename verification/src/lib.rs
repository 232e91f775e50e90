pub mod channel;
pub mod executor;
pub mod fs;
pub mod fs_future;
pub mod fs_mio;
