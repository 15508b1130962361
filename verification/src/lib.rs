//! Template-driven string parsing.
//!
//! A template string mixes literal text with named placeholders written
//! between curly brackets.  A schema assigns each field a name, a
//! regular-expression sub-pattern and a capture width.  Compiling a template
//! against a schema yields the composed pattern together with the capture
//! offset that each participating field owns; a matcher then applies the
//! composed pattern to an input string and routes every captured slot back
//! to the field it belongs to.

pub mod matcher;
pub mod numbers;
pub mod schema;
pub mod template;

pub use matcher::Matcher;
pub use matcher::NoRegexMatch;
pub use matcher::Record;
pub use schema::CompileError;
pub use schema::CompiledSchema;
pub use schema::Field;
pub use schema::FieldType;
pub use schema::Schema;
pub use template::arguments;
