//! Parser for JVM-style type descriptor strings.
//!
//! A field descriptor is a run of array markers (`[`) followed by a base
//! type: one of the eight primitive one-letter codes, or `L<name>;` for a
//! reference type.  A method descriptor is a parenthesized list of field
//! descriptors followed by a return field descriptor.  Each entry point
//! requires the whole input to be consumed and reports failure as `None`.

pub mod grammar;
pub mod parser;
pub mod render;
pub mod types;

pub use types::Descriptor;
pub use types::FieldType;
pub use types::MethodType;
pub use types::SingleType;
