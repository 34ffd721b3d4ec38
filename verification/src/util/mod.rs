pub mod rand;
pub mod text;
