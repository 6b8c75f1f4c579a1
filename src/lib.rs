//! Declarative command-line argument parsing: a schema of options, flags and
//! positionals is matched against an argument vector, the captured tokens are
//! converted to typed values, and completeness is checked.
pub mod value;
pub mod schema;
pub mod matcher;
pub mod engine;
pub mod usage;
pub mod fields;
pub mod multy_command_copy_pa;
pub mod multy_command_create_pa;
pub mod multy_command_pa;
pub mod simple_pa;
pub mod schema_pa;
pub mod laws;
