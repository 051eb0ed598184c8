pub mod array;
pub mod ast;
pub mod builtins;
pub mod bytecode;
pub mod bytes;
pub mod codegen;
pub mod compiler;
pub mod env;
pub mod errors;
pub mod gc;
pub mod hash_table;
pub mod heap;
pub mod layout;
pub mod machine;
pub mod number;
pub mod output;
pub mod parser;
pub mod runtime_context;
pub mod semantic;
pub mod stack;
pub mod types;
pub mod utils;
pub mod value;
pub mod vm;
