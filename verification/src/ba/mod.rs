pub mod decompressor;
pub mod play;
pub mod stream;
pub mod video;
