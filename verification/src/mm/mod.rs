pub mod allocator;
pub mod init;
