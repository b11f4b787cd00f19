//! A compiler and virtual machine for a small language with Spanish keywords: the
//! grammar and its parser, the symbol table, the quadruples, the object file and the
//! decisions of the machine, each with its contract.

pub mod constants;
pub mod directory;
pub mod grammar;
pub mod jumps;
pub mod machine;
pub mod name_map;
pub mod obj_laws;
pub mod obj_reader;
pub mod obj_writer;
pub mod parse_tree;
pub mod quadruples;
pub mod semantic;
pub mod text;

pub use grammar::{CSVParser, Rule};
