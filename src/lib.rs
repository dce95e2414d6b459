//! A code generator that lowers a stack-machine instruction language into
//! assembly text for a 16-bit accumulator machine.
pub mod text;
pub mod op_code;
pub mod listing;
pub mod code_writer;
pub mod laws;
pub mod translator;
pub mod parser;
pub mod machine;
