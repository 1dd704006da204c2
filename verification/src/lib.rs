//! Assembler front end for TVM mnemonics: a verified tokenizer and command
//! grouper over an instruction table, the debug-position bookkeeping that goes
//! with the produced code, and the error values it reports.

pub mod commands;
pub mod debug;
pub mod encoding;
pub mod engine;
pub mod errors;
pub mod info;
pub mod laws;
pub mod operands;
pub mod text;
pub mod writer;

pub use debug::{lines_to_string, DbgNode, DbgPos, Line, Lines};
pub use encoding::bag_of_cells_text;
pub use engine::{compile_code_to_bytes, CommandRule, Engine};
pub use errors::{CompileError, OperationError, ParameterError, Position};
pub use info::{CellTree, DbgInfo};
pub use operands::Operand;
pub use writer::{Unit, Units};
