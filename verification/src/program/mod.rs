pub mod context;
pub mod format;
pub mod function;
pub mod heap;
pub mod program;
pub mod serializer;

pub use context::GvmContext;
pub use function::GvmFunction;
pub use heap::GvmHeap;
pub use program::GvmProgram;
