//! Verified core of the NeoCLR runtime prototype: instruction decoding, the
//! managed heap, metadata text parsing and the smaller runtime policies.
pub mod fault;
pub mod text;
pub mod numbers;
pub mod cil;
pub mod types;
pub mod value;
pub mod gc;
pub mod gc_laws;
pub mod enums;
pub mod execution;
pub mod debugger;
pub mod fault_code;
pub mod file_io;
pub mod checked;
pub mod arrays;
pub mod syntax;
pub mod metadata;
pub mod assembler;
pub mod clock;
pub mod constraints;
pub mod lexer;
pub mod delegates;
pub mod boxed_values;
pub mod file_streams;
pub mod file_requests;
pub mod frontend;
pub mod parser;
pub mod terminal;
pub mod tree;
pub mod captures;
pub mod grammar;
pub mod grammar_facts;
pub mod depth_facts;
pub mod step_facts;
pub mod unfold_facts;
pub mod expressions;
pub mod declarations;
pub mod document;
pub mod program;
pub mod inference;
pub mod lookup;
pub mod conformance;
pub mod neoil;
pub mod module_text;
pub mod module_reader;

pub use fault::Fault;
pub use fault_code::FaultCode;
