//! Finding a function that calls another in a parsed source file, extracting the text
//! of both, and the small tools around that search: source locations, file stores,
//! structural comparison of sources, and command lines.

pub mod ansi;
pub mod callee;
pub mod caller;
pub mod command;
pub mod equivalence;
pub mod filesystem;
pub mod finder;
pub mod location;
pub mod report;
pub mod resolve;
pub mod syntax;
pub mod text;

pub use ansi::strip_ansi_codes;
pub use callee::FindCallee;
pub use caller::{find_caller, FindCaller};
pub use command::{build_project, check_project, compile_file};
pub use equivalence::parse_and_compare_ast;
pub use finder::FindFn;
pub use resolve::{resolve_aeneas_path, resolve_charon_path};
