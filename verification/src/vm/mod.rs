pub mod exception;
pub mod gvm;
pub mod instruction;
pub mod messages;
pub mod object;
pub mod runtime;
pub mod semantics;
pub mod stack_frame;
pub mod thread;
pub mod types;
