//! Safe inspection of a compiled CDDL schema.
//!
//! A schema is compiled by the `cddl-cat` engine into a tree of nodes. This
//! crate holds such a tree as plain data, [`Ivt`], and offers the accessors by
//! which a dynamically typed host looks into it: the variant tag, the scalar
//! value, the ordered children, the key/value pair, and the lookup of a rule
//! by name. It also hands a value to the engine for validation, and tells a
//! validation on which the engine would never come to an end.
//!
//! - [`node`]: the tree, its view and its copy;
//! - [`ivt_node`]: a node held for inspection, and its accessors;
//! - [`rules`]: a rule set, and the lookup by name;
//! - [`entry`]: compiling and validating;
//! - [`error`]: the failures;
//! - [`render`]: the text of a tree, for diagnostics;
//! - [`text`]: tags, names and symbols;
//! - [`order`]: the order of rule names;
//! - [`productive`]: the rules on which the engine comes to an end;
//! - [`laws`]: what holds of the accessors together;
//! - [`engine`]: the calls into `cddl-cat`, and the one into std's
//!   formatting, which are believed and not proved.

pub mod engine;
pub mod entry;
pub mod error;
pub mod ivt_node;
pub mod laws;
pub mod node;
pub mod order;
pub mod productive;
pub mod render;
pub mod rules;
pub mod text;

pub use entry::{
    compile_result, flatten_from_str, is_schema_productive, try_validate_cbor_bytes, try_validate_json_str,
    validate_cbor_bytes, validate_json_str, validation_result,
};
pub use error::{err_adapter, Error, ErrorView, ValidateError};
pub use ivt_node::{literal_value, IVTNode};
pub use node::{Ivt, IvtView, OccurLimit, Prelude, Scalar, ScalarView};
pub use rules::CDDLRules;
