//! Hierarchical permission paths: parsing, wildcard matching and boolean
//! policies over permission sets.

pub mod check;
pub mod expr;
pub mod parser;
pub mod tokenizer;

pub use crate::check::{check, check_one, ComplexCheck};
pub use crate::expr::{expr_parse, ItemExpr};
pub use crate::parser::{parse, PermissionGroup, PermissionItem, PermissionParseError, Span};
pub use crate::tokenizer::{Field, FieldView, ListSpecifier, Specifier};
