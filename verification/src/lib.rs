pub mod bridge;
pub mod debug;
pub mod gc;
pub mod program;
pub mod streams;
pub mod text;
pub mod vm;
